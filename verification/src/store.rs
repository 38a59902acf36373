//! The document store: one record per project plus a metadata index.
//!
//! `JsonStore` is the in-memory state of the store: the metadata index
//! (project-id list and global settings) and the loaded project
//! documents.  Every operation here is pure state manipulation with an
//! exact contract; the application edge reads the documents from disk
//! into this state at startup and persists the affected document (and
//! the index, when it changed) after each mutation, always writing to a
//! temporary sibling file and renaming it over the destination.
//!
//! A loaded document set may be partial: a document that was missing or
//! malformed on disk is simply absent here, while its id may still stand
//! in the index.  Reads of an absent document yield absent results, as
//! the contract requires for any unknown id.

use vstd::prelude::*;

use crate::models::CodingAgentType;
use crate::models::CommandMode;
use crate::models::FileCard;
use crate::models::Item;
use crate::models::ItemType;
use crate::models::Project;
use crate::models::ProjectMetadata;
use crate::models::TodoItem;
use crate::models::TodoProgress;
use crate::models::str_eq;
use crate::models::ExportData;
use crate::models::ImportData;
use crate::models::ImportResult;
use crate::models::ProjectRow;
use crate::models::FileCardRow;
use crate::update::FileCardPatch;
use crate::update::ItemPatch;
use crate::update::ProjectPatch;
use crate::update::TodoPatch;

verus! {

/// One key/value pair of the global settings map.
#[derive(Debug, PartialEq)]
pub struct SettingEntry {
    pub key: String,
    pub value: String,
}

impl Clone for SettingEntry {
    fn clone(&self) -> (r: Self)
        ensures
            r == *self,
    {
        SettingEntry { key: self.key.clone(), value: self.value.clone() }
    }
}

/// The metadata index: schema version, the list of all project ids, and
/// the flat global settings map (keys unique).
#[derive(Debug, PartialEq)]
pub struct Metadata {
    pub version: u32,
    pub project_ids: Vec<String>,
    pub global_settings: Vec<SettingEntry>,
}

/// The full document of one project: its own record together with all
/// of its items, todos and file cards.
#[derive(Debug, PartialEq)]
pub struct ProjectData {
    pub id: String,
    pub name: String,
    pub description: String,
    pub metadata: ProjectMetadata,
    pub items: Vec<Item>,
    pub todos: Vec<TodoItem>,
    pub file_cards: Vec<FileCard>,
    pub created_at: String,
    pub updated_at: String,
}

impl ProjectData {
    /// Every child record of a well-formed document names the document's
    /// own project as its parent.
    pub open spec fn wf(self) -> bool {
        &&& forall|k: int| 0 <= k < self.items@.len() ==> self.items@[k].project_id@ == self.id@
        &&& forall|k: int| 0 <= k < self.todos@.len() ==> self.todos@[k].project_id@ == self.id@
        &&& forall|k: int|
            0 <= k < self.file_cards@.len() ==> self.file_cards@[k].project_id@ == self.id@
    }

    /// The project as shown in list views: the record alone, without
    /// its items.
    pub fn to_project(&self) -> (r: Project)
        ensures
            r.id == self.id,
            r.name == self.name,
            r.description == self.description,
            r.metadata.mdv() == self.metadata.mdv(),
            r.created_at == self.created_at,
            r.updated_at == self.updated_at,
            r.items is None,
    {
        Project {
            id: self.id.clone(),
            name: self.name.clone(),
            description: self.description.clone(),
            metadata: self.metadata.clone(),
            created_at: self.created_at.clone(),
            updated_at: self.updated_at.clone(),
            items: None,
        }
    }

    /// The project as fetched by id: the record together with its items.
    pub fn to_project_with_items(&self) -> (r: Project)
        ensures
            r.id == self.id,
            r.name == self.name,
            r.description == self.description,
            r.metadata.mdv() == self.metadata.mdv(),
            r.created_at == self.created_at,
            r.updated_at == self.updated_at,
            r.items matches Some(v) && v@ == self.items@,
    {
        Project {
            id: self.id.clone(),
            name: self.name.clone(),
            description: self.description.clone(),
            metadata: self.metadata.clone(),
            created_at: self.created_at.clone(),
            updated_at: self.updated_at.clone(),
            items: Some(clone_items(&self.items)),
        }
    }
}

/// Clones a list of items; the clone holds the same values.
pub fn clone_items(v: &Vec<Item>) -> (r: Vec<Item>)
    ensures
        r@ == v@,
{
    let mut r: Vec<Item> = Vec::new();
    let mut i: usize = 0;
    while i < v.len()
        invariant
            i <= v.len(),
            r@.len() == i as int,
            forall|j: int| 0 <= j < i as int ==> r@[j] == v@[j],
        decreases v.len() - i,
    {
        r.push(v[i].clone());
        i = i + 1;
    }
    proof {
        assert(r@ =~= v@);
    }
    r
}

/// Clones a list of settings entries; the clone holds the same values.
pub fn clone_settings(v: &Vec<SettingEntry>) -> (r: Vec<SettingEntry>)
    ensures
        r@ == v@,
{
    let mut r: Vec<SettingEntry> = Vec::new();
    let mut i: usize = 0;
    while i < v.len()
        invariant
            i <= v.len(),
            r@.len() == i as int,
            forall|j: int| 0 <= j < i as int ==> r@[j] == v@[j],
        decreases v.len() - i,
    {
        r.push(v[i].clone());
        i = i + 1;
    }
    proof {
        assert(r@ =~= v@);
    }
    r
}

/// The in-memory state of the document store.
#[derive(Debug)]
pub struct JsonStore {
    /// The metadata index, as last loaded or written.
    pub metadata: Metadata,
    /// The loaded project documents; a subset of the ids in the index.
    pub projects: Vec<ProjectData>,
    /// The modification stamp of the index file when it was last read
    /// or written, in nanoseconds; `None` while the file is absent.
    pub last_metadata_mtime: Option<u128>,
}

/// Whether some id in `ids` reads `id`.
pub open spec fn ids_has(ids: Seq<String>, id: Seq<char>) -> bool {
    exists|j: int| 0 <= j < ids.len() && ids[j]@ == id
}

/// Where `id` stands in `ids`.
pub open spec fn ids_at(ids: Seq<String>, id: Seq<char>) -> int {
    choose|j: int| 0 <= j < ids.len() && ids[j]@ == id
}

/// Whether the ids in `ids` are pairwise distinct.
pub open spec fn ids_unique(ids: Seq<String>) -> bool {
    forall|i: int, j: int| 0 <= i < j < ids.len() ==> ids[i]@ != ids[j]@
}

/// Whether some document in `ps` is the project `id`.
pub open spec fn docs_have(ps: Seq<ProjectData>, id: Seq<char>) -> bool {
    exists|i: int| 0 <= i < ps.len() && ps[i].id@ == id
}

/// Where the document of project `id` stands in `ps`.
pub open spec fn docs_at(ps: Seq<ProjectData>, id: Seq<char>) -> int {
    choose|i: int| 0 <= i < ps.len() && ps[i].id@ == id
}

/// Whether the documents in `ps` have pairwise distinct project ids.
pub open spec fn docs_unique(ps: Seq<ProjectData>) -> bool {
    forall|i: int, j: int| 0 <= i < j < ps.len() ==> ps[i].id@ != ps[j].id@
}

/// Whether the keys of the settings entries are pairwise distinct.
pub open spec fn keys_unique(s: Seq<SettingEntry>) -> bool {
    forall|i: int, j: int| 0 <= i < j < s.len() ==> s[i].key@ != s[j].key@
}

impl JsonStore {
    /// Whether `id` stands in the metadata index.
    pub open spec fn index_has(self, id: Seq<char>) -> bool {
        ids_has(self.metadata.project_ids@, id)
    }

    /// Whether the document of project `id` is loaded.
    pub open spec fn has_doc(self, id: Seq<char>) -> bool {
        docs_have(self.projects@, id)
    }

    /// The position of project `id` among the loaded documents.
    pub open spec fn doc_at(self, id: Seq<char>) -> int {
        docs_at(self.projects@, id)
    }

    /// The position of `id` in the metadata index.
    pub open spec fn index_at(self, id: Seq<char>) -> int {
        ids_at(self.metadata.project_ids@, id)
    }

    /// The store invariant: ids are unique in the index and among the
    /// loaded documents, every loaded document's id stands in the index,
    /// every document is well formed, and settings keys are unique.
    pub open spec fn wf(self) -> bool {
        &&& ids_unique(self.metadata.project_ids@)
        &&& docs_unique(self.projects@)
        &&& forall|i: int|
            0 <= i < self.projects@.len() ==> ids_has(
                self.metadata.project_ids@,
                #[trigger] self.projects@[i].id@,
            )
        &&& forall|i: int| 0 <= i < self.projects@.len() ==> (#[trigger] self.projects@[i]).wf()
        &&& keys_unique(self.metadata.global_settings@)
    }

    /// A fresh, empty store: schema version 1, no projects, no settings.
    pub fn new_empty() -> (r: JsonStore)
        ensures
            r.wf(),
            r.metadata.version == 1,
            r.metadata.project_ids@.len() == 0,
            r.metadata.global_settings@.len() == 0,
            r.projects@.len() == 0,
            r.last_metadata_mtime is None,
    {
        JsonStore {
            metadata: Metadata {
                version: 1,
                project_ids: Vec::new(),
                global_settings: Vec::new(),
            },
            projects: Vec::new(),
            last_metadata_mtime: None,
        }
    }

    /// Finds the position of a loaded document by project id.
    pub fn find_doc(&self, id: &str) -> (r: Option<usize>)
        ensures
            match r {
                Some(i) => i < self.projects@.len() && self.projects@[i as int].id@ == id@,
                None => !self.has_doc(id@),
            },
    {
        let mut i: usize = 0;
        while i < self.projects.len()
            invariant
                i <= self.projects@.len(),
                forall|j: int| 0 <= j < i as int ==> self.projects@[j].id@ != id@,
            decreases self.projects@.len() - i,
        {
            if str_eq(self.projects[i].id.as_str(), id) {
                return Some(i);
            }
            i = i + 1;
        }
        None
    }

    /// Finds the position of an id in the metadata index.
    pub fn find_index(&self, id: &str) -> (r: Option<usize>)
        ensures
            match r {
                Some(j) => j < self.metadata.project_ids@.len()
                    && self.metadata.project_ids@[j as int]@ == id@,
                None => !self.index_has(id@),
            },
    {
        let mut j: usize = 0;
        while j < self.metadata.project_ids.len()
            invariant
                j <= self.metadata.project_ids@.len(),
                forall|k: int| 0 <= k < j as int ==> self.metadata.project_ids@[k]@ != id@,
            decreases self.metadata.project_ids@.len() - j,
        {
            if str_eq(self.metadata.project_ids[j].as_str(), id) {
                return Some(j);
            }
            j = j + 1;
        }
        None
    }

    /// Installs a document read from disk, rejecting one that would
    /// break the store invariant: an id already loaded, an id absent
    /// from the index, or a child record naming another project.
    ///
    /// Returns whether the document was taken in.
    pub fn install_loaded_project(&mut self, pd: ProjectData) -> (r: bool)
        requires
            old(self).wf(),
        ensures
            final(self).wf(),
            final(self).metadata == old(self).metadata,
            final(self).last_metadata_mtime == old(self).last_metadata_mtime,
            r ==> final(self).projects@ == old(self).projects@.push(pd),
            !r ==> final(self).projects@ == old(self).projects@,
            r == (pd.wf() && old(self).index_has(pd.id@) && !old(self).has_doc(pd.id@)),
    {
        if self.find_doc(pd.id.as_str()).is_some() {
            return false;
        }
        if let Some(j) = self.find_index(pd.id.as_str()) {
            proof {
                assert(ids_has(self.metadata.project_ids@, pd.id@));
            }
        } else {
            return false;
        }
        if !check_project_data(&pd) {
            return false;
        }
        self.projects.push(pd);
        proof {
            let newp = self.projects@;
            let oldp = old(self).projects@;
            assert forall|i: int, j: int| 0 <= i < j < newp.len() implies newp[i].id@
                != newp[j].id@ by {
                if j == newp.len() - 1 {
                    assert(oldp[i].id@ != pd.id@);
                }
            };
            assert forall|i: int| 0 <= i < newp.len() implies ids_has(
                self.metadata.project_ids@,
                #[trigger] newp[i].id@,
            ) by {
                if i < newp.len() - 1 {
                    assert(newp[i] == oldp[i]);
                    assert(ids_has(self.metadata.project_ids@, oldp[i].id@));
                }
            };
            assert forall|i: int| 0 <= i < newp.len() implies (#[trigger] newp[i]).wf() by {
                if i < newp.len() - 1 {
                    assert(newp[i] == oldp[i]);
                    assert(oldp[i].wf());
                }
            };
        }
        true
    }

    /// Creates a project with the given fresh id at the given time.
    ///
    /// The new document and its id are appended; nothing else changes.
    pub fn create_project_at(
        &mut self,
        id: &str,
        now: &str,
        name: &str,
        description: &str,
        metadata: ProjectMetadata,
    ) -> (r: Project)
        requires
            old(self).wf(),
            !old(self).index_has(id@),
        ensures
            final(self).wf(),
            final(self).metadata.version == old(self).metadata.version,
            final(self).metadata.global_settings == old(self).metadata.global_settings,
            final(self).last_metadata_mtime == old(self).last_metadata_mtime,
            final(self).metadata.project_ids@.len() == old(self).metadata.project_ids@.len() + 1,
            forall|j: int|
                0 <= j < old(self).metadata.project_ids@.len() ==> final(self).metadata.project_ids@[j] == old(self).metadata.project_ids@[j],
            final(self).metadata.project_ids@.last()@ == id@,
            final(self).projects@.len() == old(self).projects@.len() + 1,
            forall|i: int|
                0 <= i < old(self).projects@.len() ==> final(self).projects@[i] == old(self).projects@[i],
            ({
                let p = final(self).projects@.last();
                &&& p.id@ == id@
                &&& p.name@ == name@
                &&& p.description@ == description@
                &&& p.metadata == metadata
                &&& p.items@.len() == 0
                &&& p.todos@.len() == 0
                &&& p.file_cards@.len() == 0
                &&& p.created_at@ == now@
                &&& p.updated_at@ == now@
            }),
            r.id@ == id@,
            r.name@ == name@,
            r.description@ == description@,
            r.metadata.mdv() == metadata.mdv(),
            r.created_at@ == now@,
            r.updated_at@ == now@,
            r.items is None,
    {
        let pd = ProjectData {
            id: id.to_owned(),
            name: name.to_owned(),
            description: description.to_owned(),
            metadata,
            items: Vec::new(),
            todos: Vec::new(),
            file_cards: Vec::new(),
            created_at: now.to_owned(),
            updated_at: now.to_owned(),
        };
        let r = pd.to_project();
        proof {
            if old(self).has_doc(id@) {
                let w = choose|w: int|
                    0 <= w < old(self).projects@.len() && old(self).projects@[w].id@ == id@;
                assert(ids_has(old(self).metadata.project_ids@, old(self).projects@[w].id@));
            }
            assert(pd.wf());
        }
        self.projects.push(pd);
        self.metadata.project_ids.push(id.to_owned());
        proof {
            let oldids = old(self).metadata.project_ids@;
            let x = self.metadata.project_ids@.last();
            assert(self.metadata.project_ids@ =~= oldids.push(x));
            lemma_ids_push(oldids, x);
            lemma_ids_unique_push(oldids, x);
            let oldps = old(self).projects@;
            let gpd = self.projects@.last();
            assert(self.projects@ =~= oldps.push(gpd));
            lemma_docs_unique_push(oldps, gpd);
            assert forall|i: int| 0 <= i < self.projects@.len() implies ids_has(
                self.metadata.project_ids@,
                #[trigger] self.projects@[i].id@,
            ) by {
                if i < self.projects@.len() - 1 {
                    assert(self.projects@[i] == oldps[i]);
                    assert(ids_has(oldids, oldps[i].id@));
                }
            };
            assert forall|i: int| 0 <= i < self.projects@.len() implies (
            #[trigger] self.projects@[i]).wf() by {
                if i < self.projects@.len() - 1 {
                    assert(self.projects@[i] == oldps[i]);
                    assert(oldps[i].wf());
                }
            };
        }
        r
    }

    /// Updates a project's own record: supplied fields overwrite, the
    /// update time is stamped, and children are untouched.  An unknown
    /// or unloaded id changes nothing and yields `None`.
    pub fn update_project_at(&mut self, id: &str, now: &str, patch: ProjectPatch) -> (r: Option<
        Project,
    >)
        requires
            old(self).wf(),
        ensures
            final(self).wf(),
            !old(self).has_doc(id@) ==> r is None && *final(self) == *old(self),
            old(self).has_doc(id@) ==> ({
                let i = old(self).doc_at(id@);
                let p0 = old(self).projects@[i];
                let p1 = final(self).projects@[i];
                &&& final(self).metadata == old(self).metadata
                &&& final(self).last_metadata_mtime == old(self).last_metadata_mtime
                &&& final(self).projects@.len() == old(self).projects@.len()
                &&& forall|k: int|
                    0 <= k < old(self).projects@.len() && k != i ==> final(self).projects@[k]
                        == old(self).projects@[k]
                &&& p1.id == p0.id
                &&& p1.created_at == p0.created_at
                &&& p1.name == crate::update::spec_set(p0.name, patch.name)
                &&& p1.description == crate::update::spec_set(p0.description, patch.description)
                &&& (match patch.metadata {
                    Some(m) => p1.metadata == m,
                    None => p1.metadata == p0.metadata,
                })
                &&& p1.items == p0.items
                &&& p1.todos == p0.todos
                &&& p1.file_cards == p0.file_cards
                &&& p1.updated_at@ == now@
                &&& r matches Some(p) && p.id == p1.id && p.name == p1.name && p.description
                    == p1.description && p.metadata.mdv() == p1.metadata.mdv() && p.created_at
                    == p1.created_at && p.updated_at == p1.updated_at && (p.items matches Some(v)
                    && v@ == p1.items@)
            }),
    {
        let found = self.find_doc(id);
        match found {
            None => None,
            Some(i) => {
                proof {
                    lemma_docs_at_unique(self.projects@, id@, i as int);
                }
                let mut pd = self.projects.remove(i);
                match patch {
                    ProjectPatch { name, description, metadata } => {
                        if let Some(n) = name {
                            pd.name = n;
                        }
                        if let Some(d) = description {
                            pd.description = d;
                        }
                        if let Some(m) = metadata {
                            pd.metadata = m;
                        }
                    },
                }
                pd.updated_at = now.to_owned();
                let r = pd.to_project_with_items();
                self.projects.insert(i, pd);
                proof {
                    assert(self.projects@ =~= old(self).projects@.update(
                        i as int,
                        self.projects@[i as int],
                    ));
                    lemma_wf_doc_update(*old(self), *self, i as int);
                }
                Some(r)
            },
        }
    }

    /// Deletes a project and, with it, every item, todo and file card
    /// of that project: the whole document is dropped and the id leaves
    /// the index.  Returns whether the id was known.
    pub fn delete_project(&mut self, id: &str) -> (r: bool)
        requires
            old(self).wf(),
        ensures
            final(self).wf(),
            r == old(self).index_has(id@),
            !r ==> *final(self) == *old(self),
            r ==> ({
                &&& final(self).metadata.project_ids@ == old(self).metadata.project_ids@.remove(
                    old(self).index_at(id@),
                )
                &&& final(self).metadata.version == old(self).metadata.version
                &&& final(self).metadata.global_settings == old(self).metadata.global_settings
                &&& final(self).last_metadata_mtime == old(self).last_metadata_mtime
                &&& !final(self).index_has(id@)
                &&& !final(self).has_doc(id@)
                &&& (old(self).has_doc(id@) ==> final(self).projects@ == old(self).projects@.remove(old(self).doc_at(id@)))
                &&& (!old(self).has_doc(id@) ==> final(self).projects@ == old(self).projects@)
            }),
    {
        let in_index = self.find_index(id);
        match in_index {
            None => false,
            Some(j) => {
                proof {
                    lemma_ids_at_unique(self.metadata.project_ids@, id@, j as int);
                }
                let doc = self.find_doc(id);
                if let Some(i) = doc {
                    proof {
                        lemma_docs_at_unique(self.projects@, id@, i as int);
                    }
                    self.projects.remove(i);
                    proof {
                        lemma_docs_unique_remove(old(self).projects@, i as int);
                    }
                }
                self.metadata.project_ids.remove(j);
                proof {
                    let oldids = old(self).metadata.project_ids@;
                    lemma_ids_unique_remove(oldids, j as int);
                    lemma_ids_remove(oldids, j as int);
                    if self.has_doc(id@) {
                        let w = choose|w: int|
                            0 <= w < self.projects@.len() && self.projects@[w].id@ == id@;
                        assert(docs_have(self.projects@, self.projects@[w].id@));
                    }
                    assert forall|k: int| 0 <= k < self.projects@.len() implies ids_has(
                        self.metadata.project_ids@,
                        #[trigger] self.projects@[k].id@,
                    ) by {
                        let did = self.projects@[k].id@;
                        if old(self).has_doc(id@) {
                            let i0 = old(self).doc_at(id@);
                            let k0 = if k < i0 {
                                k
                            } else {
                                k + 1
                            };
                            assert(self.projects@[k] == old(self).projects@[k0]);
                            assert(ids_has(oldids, old(self).projects@[k0].id@));
                            let w = choose|w: int| 0 <= w < oldids.len() && oldids[w]@ == did;
                            if did == id@ {
                                if k0 < i0 {
                                    assert(old(self).projects@[k0].id@ != old(self).projects@[i0].id@);
                                } else {
                                    assert(old(self).projects@[i0].id@ != old(self).projects@[k0].id@);
                                }
                            }
                            assert(w != j as int);
                        } else {
                            assert(self.projects@[k] == old(self).projects@[k]);
                            assert(ids_has(oldids, old(self).projects@[k].id@));
                            let w = choose|w: int| 0 <= w < oldids.len() && oldids[w]@ == did;
                            if did == id@ {
                                assert(old(self).has_doc(id@));
                            }
                            assert(w != j as int);
                        }
                    };
                    assert forall|k: int| 0 <= k < self.projects@.len() implies (
                    #[trigger] self.projects@[k]).wf() by {
                        if old(self).has_doc(id@) {
                            let i0 = old(self).doc_at(id@);
                            let k0 = if k < i0 {
                                k
                            } else {
                                k + 1
                            };
                            assert(self.projects@[k] == old(self).projects@[k0]);
                            assert(old(self).projects@[k0].wf());
                        } else {
                            assert(self.projects@[k] == old(self).projects@[k]);
                            assert(old(self).projects@[k].wf());
                        }
                    };
                }
                true
            },
        }
    }
}

/// An id found at position `i` is the one `ids_at` names, because ids
/// are unique.
pub proof fn lemma_ids_at_unique(ids: Seq<String>, id: Seq<char>, i: int)
    requires
        ids_unique(ids),
        0 <= i < ids.len(),
        ids[i]@ == id,
    ensures
        ids_has(ids, id),
        ids_at(ids, id) == i,
{
    assert(ids_has(ids, id));
    let w = ids_at(ids, id);
    if w < i {
        assert(ids[w]@ != ids[i]@);
    } else if w > i {
        assert(ids[i]@ != ids[w]@);
    }
}

/// A document found at position `i` is the one `docs_at` names, because
/// project ids are unique.
pub proof fn lemma_docs_at_unique(ps: Seq<ProjectData>, id: Seq<char>, i: int)
    requires
        docs_unique(ps),
        0 <= i < ps.len(),
        ps[i].id@ == id,
    ensures
        docs_have(ps, id),
        docs_at(ps, id) == i,
{
    assert(docs_have(ps, id));
    let w = docs_at(ps, id);
    if w < i {
        assert(ps[w].id@ != ps[i].id@);
    } else if w > i {
        assert(ps[i].id@ != ps[w].id@);
    }
}

/// What removing position `j` does to id membership: every other id is
/// kept, and with unique ids the removed one is gone.
pub proof fn lemma_ids_remove(ids: Seq<String>, j: int)
    requires
        0 <= j < ids.len(),
    ensures
        forall|id: Seq<char>|
            #[trigger] ids_has(ids.remove(j), id) <==> exists|k: int|
                0 <= k < ids.len() && k != j && ids[k]@ == id,
{
    let rem = ids.remove(j);
    assert forall|id: Seq<char>| #[trigger] ids_has(rem, id) implies exists|k: int|
        0 <= k < ids.len() && k != j && ids[k]@ == id by {
        let w = choose|w: int| 0 <= w < rem.len() && rem[w]@ == id;
        let k = if w < j {
            w
        } else {
            w + 1
        };
        assert(0 <= k < ids.len() && k != j && ids[k]@ == id);
    };
    assert forall|id: Seq<char>|
        (exists|k: int| 0 <= k < ids.len() && k != j && ids[k]@ == id) implies #[trigger] ids_has(
        rem,
        id,
    ) by {
        let k = choose|k: int| 0 <= k < ids.len() && k != j && ids[k]@ == id;
        let w = if k < j {
            k
        } else {
            k - 1
        };
        assert(rem[w]@ == id);
    };
}

/// Removing a position keeps ids unique, and keeps documents unique and
/// well formed position by position.
pub proof fn lemma_ids_unique_remove(ids: Seq<String>, j: int)
    requires
        ids_unique(ids),
        0 <= j < ids.len(),
    ensures
        ids_unique(ids.remove(j)),
{
    let rem = ids.remove(j);
    assert forall|a: int, b: int| 0 <= a < b < rem.len() implies rem[a]@ != rem[b]@ by {
        let a0 = if a < j {
            a
        } else {
            a + 1
        };
        let b0 = if b < j {
            b
        } else {
            b + 1
        };
        assert(ids[a0]@ != ids[b0]@);
    };
}

/// Removing a document keeps the remaining documents unique.
pub proof fn lemma_docs_unique_remove(ps: Seq<ProjectData>, i: int)
    requires
        docs_unique(ps),
        0 <= i < ps.len(),
    ensures
        docs_unique(ps.remove(i)),
        forall|id: Seq<char>|
            #[trigger] docs_have(ps.remove(i), id) ==> docs_have(ps, id) && id != ps[i].id@,
{
    let rem = ps.remove(i);
    assert forall|a: int, b: int| 0 <= a < b < rem.len() implies rem[a].id@ != rem[b].id@ by {
        let a0 = if a < i {
            a
        } else {
            a + 1
        };
        let b0 = if b < i {
            b
        } else {
            b + 1
        };
        assert(ps[a0].id@ != ps[b0].id@);
    };
    assert forall|id: Seq<char>| #[trigger] docs_have(rem, id) implies docs_have(ps, id) && id
        != ps[i].id@ by {
        let w = choose|w: int| 0 <= w < rem.len() && rem[w].id@ == id;
        let k = if w < i {
            w
        } else {
            w + 1
        };
        assert(ps[k].id@ == id);
        if k < i {
            assert(ps[k].id@ != ps[i].id@);
        } else {
            assert(ps[i].id@ != ps[k].id@);
        }
    };
}

/// What pushing an id does to membership.
pub proof fn lemma_ids_push(ids: Seq<String>, x: String)
    ensures
        forall|id: Seq<char>|
            #[trigger] ids_has(ids.push(x), id) <==> (ids_has(ids, id) || x@ == id),
{
    assert forall|id: Seq<char>| #[trigger] ids_has(ids.push(x), id) implies (ids_has(ids, id)
        || x@ == id) by {
        let w = choose|w: int| 0 <= w < ids.push(x).len() && ids.push(x)[w]@ == id;
        if w < ids.len() {
            assert(ids[w]@ == id);
        }
    };
    assert forall|id: Seq<char>| (ids_has(ids, id) || x@ == id) implies #[trigger] ids_has(
        ids.push(x),
        id,
    ) by {
        if ids_has(ids, id) {
            let w = choose|w: int| 0 <= w < ids.len() && ids[w]@ == id;
            assert(ids.push(x)[w]@ == id);
        } else {
            assert(ids.push(x)[ids.len() as int]@ == id);
        }
    };
}

/// Pushing an id that is not yet present keeps ids unique.
pub proof fn lemma_ids_unique_push(ids: Seq<String>, x: String)
    requires
        ids_unique(ids),
        !ids_has(ids, x@),
    ensures
        ids_unique(ids.push(x)),
{
    let newids = ids.push(x);
    assert forall|a: int, b: int| 0 <= a < b < newids.len() implies newids[a]@ != newids[b]@ by {
        if b == newids.len() - 1 {
            if ids[a]@ == x@ {
                assert(ids_has(ids, x@));
            }
        } else {
            assert(ids[a]@ != ids[b]@);
        }
    };
}

/// What pushing a document does to membership.
pub proof fn lemma_docs_push(ps: Seq<ProjectData>, pd: ProjectData)
    ensures
        forall|id: Seq<char>|
            #[trigger] docs_have(ps.push(pd), id) <==> (docs_have(ps, id) || pd.id@ == id),
{
    assert forall|id: Seq<char>| #[trigger] docs_have(ps.push(pd), id) implies (docs_have(ps, id)
        || pd.id@ == id) by {
        let w = choose|w: int| 0 <= w < ps.push(pd).len() && ps.push(pd)[w].id@ == id;
        if w < ps.len() {
            assert(ps[w].id@ == id);
        }
    };
    assert forall|id: Seq<char>| (docs_have(ps, id) || pd.id@ == id) implies #[trigger] docs_have(
        ps.push(pd),
        id,
    ) by {
        if docs_have(ps, id) {
            let w = choose|w: int| 0 <= w < ps.len() && ps[w].id@ == id;
            assert(ps.push(pd)[w].id@ == id);
        } else {
            assert(ps.push(pd)[ps.len() as int].id@ == id);
        }
    };
}

/// Pushing a document whose id is not yet present keeps documents
/// unique.
pub proof fn lemma_docs_unique_push(ps: Seq<ProjectData>, pd: ProjectData)
    requires
        docs_unique(ps),
        !docs_have(ps, pd.id@),
    ensures
        docs_unique(ps.push(pd)),
{
    let newps = ps.push(pd);
    assert forall|a: int, b: int| 0 <= a < b < newps.len() implies newps[a].id@ != newps[b].id@ by {
        if b == newps.len() - 1 {
            if ps[a].id@ == pd.id@ {
                assert(docs_have(ps, pd.id@));
            }
        } else {
            assert(ps[a].id@ != ps[b].id@);
        }
    };
}

/// Replacing one document with another of the same project id, keeping
/// everything else, preserves the store invariant.
pub proof fn lemma_wf_doc_update(pre: JsonStore, post: JsonStore, i: int)
    requires
        pre.wf(),
        post.metadata == pre.metadata,
        0 <= i < pre.projects@.len(),
        post.projects@.len() == pre.projects@.len(),
        forall|k: int|
            0 <= k < pre.projects@.len() && k != i ==> post.projects@[k] == pre.projects@[k],
        post.projects@[i].id@ == pre.projects@[i].id@,
        post.projects@[i].wf(),
    ensures
        post.wf(),
{
    assert forall|a: int, b: int| 0 <= a < b < post.projects@.len() implies post.projects@[a].id@
        != post.projects@[b].id@ by {
        assert(post.projects@[a].id@ == pre.projects@[a].id@);
        assert(post.projects@[b].id@ == pre.projects@[b].id@);
        assert(pre.projects@[a].id@ != pre.projects@[b].id@);
    };
    assert forall|k: int| 0 <= k < post.projects@.len() implies ids_has(
        post.metadata.project_ids@,
        #[trigger] post.projects@[k].id@,
    ) by {
        assert(post.projects@[k].id@ == pre.projects@[k].id@);
        assert(ids_has(pre.metadata.project_ids@, pre.projects@[k].id@));
    };
    assert forall|k: int| 0 <= k < post.projects@.len() implies (
    #[trigger] post.projects@[k]).wf() by {
        if k != i {
            assert(post.projects@[k] == pre.projects@[k]);
            assert(pre.projects@[k].wf());
        }
    };
}

/// Checks at run time that a document read from disk is well formed.
pub fn check_project_data(pd: &ProjectData) -> (r: bool)
    ensures
        r == pd.wf(),
{
    let mut k: usize = 0;
    while k < pd.items.len()
        invariant
            k <= pd.items@.len(),
            forall|j: int| 0 <= j < k as int ==> pd.items@[j].project_id@ == pd.id@,
        decreases pd.items@.len() - k,
    {
        if !str_eq(pd.items[k].project_id.as_str(), pd.id.as_str()) {
            return false;
        }
        k = k + 1;
    }
    let mut k: usize = 0;
    while k < pd.todos.len()
        invariant
            k <= pd.todos@.len(),
            forall|j: int| 0 <= j < k as int ==> pd.todos@[j].project_id@ == pd.id@,
            forall|j: int| 0 <= j < pd.items@.len() ==> pd.items@[j].project_id@ == pd.id@,
        decreases pd.todos@.len() - k,
    {
        if !str_eq(pd.todos[k].project_id.as_str(), pd.id.as_str()) {
            return false;
        }
        k = k + 1;
    }
    let mut k: usize = 0;
    while k < pd.file_cards.len()
        invariant
            k <= pd.file_cards@.len(),
            forall|j: int| 0 <= j < k as int ==> pd.file_cards@[j].project_id@ == pd.id@,
            forall|j: int| 0 <= j < pd.items@.len() ==> pd.items@[j].project_id@ == pd.id@,
            forall|j: int| 0 <= j < pd.todos@.len() ==> pd.todos@[j].project_id@ == pd.id@,
        decreases pd.file_cards@.len() - k,
    {
        if !str_eq(pd.file_cards[k].project_id.as_str(), pd.id.as_str()) {
            return false;
        }
        k = k + 1;
    }
    true
}



/// The shape of a store after the todo at position `k` of project `i`
/// was patched: the todo obeys the patch semantics including the
/// completion-timestamp rule, the owning project is freshly stamped,
/// and nothing else changed.
pub open spec fn todo_updated(
    pre: JsonStore,
    post: JsonStore,
    id: Seq<char>,
    ts: Seq<char>,
    patch: TodoPatch,
    td: TodoItem,
    i: int,
    k: int,
) -> bool {
    &&& 0 <= i < pre.projects@.len()
    &&& 0 <= k < pre.projects@[i].todos@.len()
    &&& pre.projects@[i].todos@[k].id@ == id
    &&& crate::update::spec_todo_after(pre.projects@[i].todos@[k], patch, ts, td)
    &&& post.metadata == pre.metadata
    &&& post.last_metadata_mtime == pre.last_metadata_mtime
    &&& post.projects@.len() == pre.projects@.len()
    &&& (forall|i2: int|
        0 <= i2 < pre.projects@.len() && i2 != i ==> post.projects@[i2] == pre.projects@[i2])
    &&& post.projects@[i].todos@ == pre.projects@[i].todos@.update(k, td)
    &&& post.projects@[i].id == pre.projects@[i].id
    &&& post.projects@[i].name == pre.projects@[i].name
    &&& post.projects@[i].description == pre.projects@[i].description
    &&& post.projects@[i].metadata == pre.projects@[i].metadata
    &&& post.projects@[i].items == pre.projects@[i].items
    &&& post.projects@[i].file_cards == pre.projects@[i].file_cards
    &&& post.projects@[i].created_at == pre.projects@[i].created_at
    &&& post.projects@[i].updated_at@ == ts
}

/// Whether some todo position witnesses `todo_updated`.
pub open spec fn some_todo_updated(
    pre: JsonStore,
    post: JsonStore,
    id: Seq<char>,
    ts: Seq<char>,
    patch: TodoPatch,
    td: TodoItem,
) -> bool {
    exists|i: int, k: int| todo_updated(pre, post, id, ts, patch, td, i, k)
}

/// The shape of a store after the todo at position `k` of project `i`
/// was deleted.
pub open spec fn todo_deleted(
    pre: JsonStore,
    post: JsonStore,
    id: Seq<char>,
    ts: Seq<char>,
    i: int,
    k: int,
) -> bool {
    &&& 0 <= i < pre.projects@.len()
    &&& 0 <= k < pre.projects@[i].todos@.len()
    &&& pre.projects@[i].todos@[k].id@ == id
    &&& post.metadata == pre.metadata
    &&& post.last_metadata_mtime == pre.last_metadata_mtime
    &&& post.projects@.len() == pre.projects@.len()
    &&& (forall|i2: int|
        0 <= i2 < pre.projects@.len() && i2 != i ==> post.projects@[i2] == pre.projects@[i2])
    &&& post.projects@[i].todos@ == pre.projects@[i].todos@.remove(k)
    &&& post.projects@[i].id == pre.projects@[i].id
    &&& post.projects@[i].name == pre.projects@[i].name
    &&& post.projects@[i].description == pre.projects@[i].description
    &&& post.projects@[i].metadata == pre.projects@[i].metadata
    &&& post.projects@[i].items == pre.projects@[i].items
    &&& post.projects@[i].file_cards == pre.projects@[i].file_cards
    &&& post.projects@[i].created_at == pre.projects@[i].created_at
    &&& post.projects@[i].updated_at@ == ts
}

/// Whether some todo position witnesses `todo_deleted`.
pub open spec fn some_todo_deleted(
    pre: JsonStore,
    post: JsonStore,
    id: Seq<char>,
    ts: Seq<char>,
) -> bool {
    exists|i: int, k: int| todo_deleted(pre, post, id, ts, i, k)
}

/// The shape of a store after the file card at position `k` of
/// project `i` was deleted.
pub open spec fn card_deleted(
    pre: JsonStore,
    post: JsonStore,
    id: Seq<char>,
    ts: Seq<char>,
    i: int,
    k: int,
) -> bool {
    &&& 0 <= i < pre.projects@.len()
    &&& 0 <= k < pre.projects@[i].file_cards@.len()
    &&& pre.projects@[i].file_cards@[k].id@ == id
    &&& post.metadata == pre.metadata
    &&& post.last_metadata_mtime == pre.last_metadata_mtime
    &&& post.projects@.len() == pre.projects@.len()
    &&& (forall|i2: int|
        0 <= i2 < pre.projects@.len() && i2 != i ==> post.projects@[i2] == pre.projects@[i2])
    &&& post.projects@[i].file_cards@ == pre.projects@[i].file_cards@.remove(k)
    &&& post.projects@[i].id == pre.projects@[i].id
    &&& post.projects@[i].name == pre.projects@[i].name
    &&& post.projects@[i].description == pre.projects@[i].description
    &&& post.projects@[i].metadata == pre.projects@[i].metadata
    &&& post.projects@[i].items == pre.projects@[i].items
    &&& post.projects@[i].todos == pre.projects@[i].todos
    &&& post.projects@[i].created_at == pre.projects@[i].created_at
    &&& post.projects@[i].updated_at@ == ts
}

/// Whether some card position witnesses `card_deleted`.
pub open spec fn some_card_deleted(
    pre: JsonStore,
    post: JsonStore,
    id: Seq<char>,
    ts: Seq<char>,
) -> bool {
    exists|i: int, k: int| card_deleted(pre, post, id, ts, i, k)
}

/// Whether some settings entry has key `key`.
pub open spec fn keys_has(s: Seq<SettingEntry>, key: Seq<char>) -> bool {
    exists|i: int| 0 <= i < s.len() && s[i].key@ == key
}

/// Where the entry with key `key` stands.
pub open spec fn key_at(s: Seq<SettingEntry>, key: Seq<char>) -> int {
    choose|i: int| 0 <= i < s.len() && s[i].key@ == key
}

/// An entry found at position `i` is the one `key_at` names, because
/// keys are unique.
pub proof fn lemma_key_at_unique(s: Seq<SettingEntry>, key: Seq<char>, i: int)
    requires
        keys_unique(s),
        0 <= i < s.len(),
        s[i].key@ == key,
    ensures
        keys_has(s, key),
        key_at(s, key) == i,
{
    assert(keys_has(s, key));
    let w = key_at(s, key);
    if w < i {
        assert(s[w].key@ != s[i].key@);
    } else if w > i {
        assert(s[i].key@ != s[w].key@);
    }
}

/// Removing an entry keeps keys unique and removes exactly that key.
pub proof fn lemma_keys_remove(s: Seq<SettingEntry>, j: int)
    requires
        keys_unique(s),
        0 <= j < s.len(),
    ensures
        keys_unique(s.remove(j)),
        !keys_has(s.remove(j), s[j].key@),
{
    let rem = s.remove(j);
    assert forall|a: int, b: int| 0 <= a < b < rem.len() implies rem[a].key@ != rem[b].key@ by {
        let a0 = if a < j {
            a
        } else {
            a + 1
        };
        let b0 = if b < j {
            b
        } else {
            b + 1
        };
        assert(s[a0].key@ != s[b0].key@);
    };
    if keys_has(rem, s[j].key@) {
        let w = choose|w: int| 0 <= w < rem.len() && rem[w].key@ == s[j].key@;
        let k = if w < j {
            w
        } else {
            w + 1
        };
        if k < j {
            assert(s[k].key@ != s[j].key@);
        } else {
            assert(s[j].key@ != s[k].key@);
        }
    }
}

impl JsonStore {
    /// Finds the position of a settings entry by key.
    pub fn find_setting(&self, key: &str) -> (r: Option<usize>)
        ensures
            match r {
                Some(i) => i < self.metadata.global_settings@.len()
                    && self.metadata.global_settings@[i as int].key@ == key@,
                None => !keys_has(self.metadata.global_settings@, key@),
            },
    {
        let mut i: usize = 0;
        while i < self.metadata.global_settings.len()
            invariant
                i <= self.metadata.global_settings@.len(),
                forall|k: int|
                    0 <= k < i as int ==> self.metadata.global_settings@[k].key@ != key@,
            decreases self.metadata.global_settings@.len() - i,
        {
            if str_eq(self.metadata.global_settings[i].key.as_str(), key) {
                return Some(i);
            }
            i = i + 1;
        }
        None
    }

    /// Returns a copy of the whole global settings map.
    pub fn get_all_settings(&self) -> (r: Result<Vec<SettingEntry>, String>)
        ensures
            r matches Ok(v) && v@ == self.metadata.global_settings@,
    {
        Ok(clone_settings(&self.metadata.global_settings))
    }

    /// Looks a setting up by key; an unknown key yields `None`, never an
    /// error.
    pub fn get_setting(&self, key: &str) -> (r: Result<Option<String>, String>)
        requires
            self.wf(),
        ensures
            r matches Ok(o) && ({
                let s = self.metadata.global_settings@;
                &&& (keys_has(s, key@) ==> (o matches Some(v) && v == s[key_at(s, key@)].value))
                &&& (!keys_has(s, key@) ==> o is None)
            }),
    {
        match self.find_setting(key) {
            Some(i) => {
                proof {
                    lemma_key_at_unique(self.metadata.global_settings@, key@, i as int);
                }
                Ok(Some(self.metadata.global_settings[i].value.clone()))
            },
            None => Ok(None),
        }
    }

    /// Sets a setting: an existing key's value is replaced, a new key
    /// is appended.  Projects are untouched.
    pub fn set_setting(&mut self, key: &str, value: &str) -> (r: Result<(), String>)
        requires
            old(self).wf(),
        ensures
            final(self).wf(),
            r is Ok,
            final(self).projects == old(self).projects,
            final(self).metadata.project_ids == old(self).metadata.project_ids,
            final(self).metadata.version == old(self).metadata.version,
            final(self).last_metadata_mtime == old(self).last_metadata_mtime,
            ({
                let s0 = old(self).metadata.global_settings@;
                let s1 = final(self).metadata.global_settings@;
                if keys_has(s0, key@) {
                    let i = key_at(s0, key@);
                    &&& s1.len() == s0.len()
                    &&& forall|k: int| 0 <= k < s0.len() && k != i ==> s1[k] == s0[k]
                    &&& s1[i].key == s0[i].key
                    &&& s1[i].value@ == value@
                } else {
                    &&& s1.len() == s0.len() + 1
                    &&& forall|k: int| 0 <= k < s0.len() ==> s1[k] == s0[k]
                    &&& s1.last().key@ == key@
                    &&& s1.last().value@ == value@
                }
            }),
            keys_has(final(self).metadata.global_settings@, key@),
    {
        let found = self.find_setting(key);
        match found {
            Some(i) => {
                proof {
                    lemma_key_at_unique(self.metadata.global_settings@, key@, i as int);
                }
                let mut e = self.metadata.global_settings.remove(i);
                e.value = value.to_owned();
                self.metadata.global_settings.insert(i, e);
                proof {
                    let s0 = old(self).metadata.global_settings@;
                    let s1 = self.metadata.global_settings@;
                    assert(s1 =~= s0.update(i as int, s1[i as int]));
                    assert forall|a: int, b: int| 0 <= a < b < s1.len() implies s1[a].key@
                        != s1[b].key@ by {
                        assert(s1[a].key@ == s0[a].key@);
                        assert(s1[b].key@ == s0[b].key@);
                        assert(s0[a].key@ != s0[b].key@);
                    };
                    assert(s1[key_at(s0, key@)].key@ == key@);
                }
                Ok(())
            },
            None => {
                self.metadata.global_settings.push(
                    SettingEntry { key: key.to_owned(), value: value.to_owned() },
                );
                proof {
                    let s0 = old(self).metadata.global_settings@;
                    let s1 = self.metadata.global_settings@;
                    assert forall|a: int, b: int| 0 <= a < b < s1.len() implies s1[a].key@
                        != s1[b].key@ by {
                        if b == s1.len() - 1 {
                            assert(s0[a].key@ != key@);
                        } else {
                            assert(s0[a].key@ != s0[b].key@);
                        }
                    };
                    assert(s1[s1.len() - 1].key@ == key@);
                }
                Ok(())
            },
        }
    }

    /// Deletes a setting by key; deleting an unknown key is a no-op.
    /// Projects are untouched.
    pub fn delete_setting(&mut self, key: &str) -> (r: Result<(), String>)
        requires
            old(self).wf(),
        ensures
            final(self).wf(),
            r is Ok,
            final(self).projects == old(self).projects,
            final(self).metadata.project_ids == old(self).metadata.project_ids,
            final(self).metadata.version == old(self).metadata.version,
            final(self).last_metadata_mtime == old(self).last_metadata_mtime,
            ({
                let s0 = old(self).metadata.global_settings@;
                let s1 = final(self).metadata.global_settings@;
                &&& (keys_has(s0, key@) ==> s1 == s0.remove(key_at(s0, key@)))
                &&& (!keys_has(s0, key@) ==> s1 == s0)
            }),
            !keys_has(final(self).metadata.global_settings@, key@),
    {
        let found = self.find_setting(key);
        match found {
            Some(i) => {
                proof {
                    lemma_key_at_unique(self.metadata.global_settings@, key@, i as int);
                }
                self.metadata.global_settings.remove(i);
                proof {
                    lemma_keys_remove(old(self).metadata.global_settings@, i as int);
                }
                Ok(())
            },
            None => Ok(()),
        }
    }
}


/// The largest `order` among the first `n` items, or -1 of none.
pub open spec fn max_item_order(items: Seq<Item>, n: int) -> int
    decreases n,
{
    if n <= 0 {
        -1
    } else {
        let m = max_item_order(items, n - 1);
        if items[n - 1].order as int > m {
            items[n - 1].order as int
        } else {
            m
        }
    }
}

/// The order assigned to a newly created item: one past the largest
/// existing order, or 0 in an empty project.
pub open spec fn next_item_order(items: Seq<Item>) -> int {
    max_item_order(items, items.len() as int) + 1
}

/// Computes the next item order, or `None` when the counter cannot grow
/// without leaving the machine range.
pub fn compute_next_item_order(items: &Vec<Item>) -> (r: Option<i32>)
    ensures
        match r {
            Some(o) => o as int == next_item_order(items@),
            None => next_item_order(items@) > i32::MAX as int,
        },
{
    let mut m: i32 = -1;
    let mut i: usize = 0;
    while i < items.len()
        invariant
            i <= items@.len(),
            -1 <= m as int,
            m as int == max_item_order(items@, i as int),
        decreases items@.len() - i,
    {
        if items[i].order > m {
            m = items[i].order;
        }
        i = i + 1;
    }
    if m == i32::MAX {
        None
    } else {
        Some(m + 1)
    }
}


/// The shape of a store after the item at position `k` of project `i`
/// was patched: the item obeys the patch semantics, the owning
/// project is freshly stamped, and nothing else changed.
pub open spec fn item_updated(
    pre: JsonStore,
    post: JsonStore,
    id: Seq<char>,
    ts: Seq<char>,
    patch: ItemPatch,
    it: Item,
    i: int,
    k: int,
) -> bool {
    &&& 0 <= i < pre.projects@.len()
    &&& 0 <= k < pre.projects@[i].items@.len()
    &&& pre.projects@[i].items@[k].id@ == id
    &&& crate::update::spec_item_after(pre.projects@[i].items@[k], patch, ts, it)
    &&& post.metadata == pre.metadata
    &&& post.last_metadata_mtime == pre.last_metadata_mtime
    &&& post.projects@.len() == pre.projects@.len()
    &&& (forall|i2: int|
        0 <= i2 < pre.projects@.len() && i2 != i ==> post.projects@[i2] == pre.projects@[i2])
    &&& post.projects@[i].items@ == pre.projects@[i].items@.update(k, it)
    &&& post.projects@[i].id == pre.projects@[i].id
    &&& post.projects@[i].name == pre.projects@[i].name
    &&& post.projects@[i].description == pre.projects@[i].description
    &&& post.projects@[i].metadata == pre.projects@[i].metadata
    &&& post.projects@[i].todos == pre.projects@[i].todos
    &&& post.projects@[i].file_cards == pre.projects@[i].file_cards
    &&& post.projects@[i].created_at == pre.projects@[i].created_at
    &&& post.projects@[i].updated_at@ == ts
}

/// Whether some item position witnesses `item_updated`.
pub open spec fn some_item_updated(
    pre: JsonStore,
    post: JsonStore,
    id: Seq<char>,
    ts: Seq<char>,
    patch: ItemPatch,
    it: Item,
) -> bool {
    exists|i: int, k: int| item_updated(pre, post, id, ts, patch, it, i, k)
}

/// The shape of a store after the item at position `k` of project `i`
/// was deleted: the item is removed, the owning project is freshly
/// stamped, and nothing else changed.
pub open spec fn item_deleted(
    pre: JsonStore,
    post: JsonStore,
    id: Seq<char>,
    ts: Seq<char>,
    i: int,
    k: int,
) -> bool {
    &&& 0 <= i < pre.projects@.len()
    &&& 0 <= k < pre.projects@[i].items@.len()
    &&& pre.projects@[i].items@[k].id@ == id
    &&& post.metadata == pre.metadata
    &&& post.last_metadata_mtime == pre.last_metadata_mtime
    &&& post.projects@.len() == pre.projects@.len()
    &&& (forall|i2: int|
        0 <= i2 < pre.projects@.len() && i2 != i ==> post.projects@[i2] == pre.projects@[i2])
    &&& post.projects@[i].items@ == pre.projects@[i].items@.remove(k)
    &&& post.projects@[i].id == pre.projects@[i].id
    &&& post.projects@[i].name == pre.projects@[i].name
    &&& post.projects@[i].description == pre.projects@[i].description
    &&& post.projects@[i].metadata == pre.projects@[i].metadata
    &&& post.projects@[i].todos == pre.projects@[i].todos
    &&& post.projects@[i].file_cards == pre.projects@[i].file_cards
    &&& post.projects@[i].created_at == pre.projects@[i].created_at
    &&& post.projects@[i].updated_at@ == ts
}

/// Whether some item position witnesses `item_deleted`.
pub open spec fn some_item_deleted(
    pre: JsonStore,
    post: JsonStore,
    id: Seq<char>,
    ts: Seq<char>,
) -> bool {
    exists|i: int, k: int| item_deleted(pre, post, id, ts, i, k)
}


impl JsonStore {
    /// Creates an item in the given project with the given fresh id at
    /// the given time; the item takes the next order counter and the
    /// project's update time is refreshed.  Creation in an unknown
    /// project is an error and changes nothing.
    pub fn create_item_at(
        &mut self,
        project_id: &str,
        id: &str,
        now: &str,
        item_type: ItemType,
        title: &str,
        content: &str,
        ide_type: Option<String>,
        remote_ide_type: Option<String>,
        coding_agent_type: Option<CodingAgentType>,
        coding_agent_args: Option<String>,
        coding_agent_env: Option<String>,
        command_mode: Option<CommandMode>,
        command_cwd: Option<String>,
        command_host: Option<String>,
    ) -> (r: Result<Item, String>)
        requires
            old(self).wf(),
        ensures
            final(self).wf(),
            !old(self).has_doc(project_id@) ==> r is Err && *final(self) == *old(self),
            old(self).has_doc(project_id@) ==> ({
                let i = old(self).doc_at(project_id@);
                let p0 = old(self).projects@[i];
                if next_item_order(p0.items@) <= i32::MAX as int {
                    let p1 = final(self).projects@[i];
                    &&& (r matches Ok(it)
                        && it.id@ == id@
                        && it.project_id@ == project_id@
                        && it.item_type == item_type
                        && it.title@ == title@
                        && it.content@ == content@
                        && it.ide_type == ide_type
                        && it.remote_ide_type == remote_ide_type
                        && it.coding_agent_type == coding_agent_type
                        && it.coding_agent_args == coding_agent_args
                        && it.coding_agent_env == coding_agent_env
                        && it.command_mode == command_mode
                        && it.command_cwd == command_cwd
                        && it.command_host == command_host
                        && it.order as int == next_item_order(p0.items@)
                        && it.created_at@ == now@
                        && it.updated_at@ == now@
                        && p1.items@ == p0.items@.push(it))
                    &&& final(self).metadata == old(self).metadata
                    &&& final(self).last_metadata_mtime == old(self).last_metadata_mtime
                    &&& final(self).projects@.len() == old(self).projects@.len()
                    &&& forall|k: int|
                        0 <= k < old(self).projects@.len() && k != i ==> final(self).projects@[k]
                            == old(self).projects@[k]
                    &&& p1.id == p0.id
                    &&& p1.name == p0.name
                    &&& p1.description == p0.description
                    &&& p1.metadata == p0.metadata
                    &&& p1.todos == p0.todos
                    &&& p1.file_cards == p0.file_cards
                    &&& p1.created_at == p0.created_at
                    &&& p1.updated_at@ == now@
                } else {
                    r is Err && *final(self) == *old(self)
                }
            }),
    {
        let found = self.find_doc(project_id);
        match found {
            None => Err("project not found".to_owned()),
            Some(i) => {
                proof {
                    lemma_docs_at_unique(self.projects@, project_id@, i as int);
                }
                let order_opt = compute_next_item_order(&self.projects[i].items);
                match order_opt {
                    None => Err("item order counter exhausted".to_owned()),
                    Some(order) => {
                        let it = Item {
                            id: id.to_owned(),
                            project_id: project_id.to_owned(),
                            item_type,
                            title: title.to_owned(),
                            content: content.to_owned(),
                            ide_type,
                            remote_ide_type,
                            coding_agent_type,
                            coding_agent_args,
                            coding_agent_env,
                            command_mode,
                            command_cwd,
                            command_host,
                            order,
                            created_at: now.to_owned(),
                            updated_at: now.to_owned(),
                        };
                        let ret = it.clone();
                        let mut pd = self.projects.remove(i);
                        pd.items.push(it);
                        pd.updated_at = now.to_owned();
                        self.projects.insert(i, pd);
                        proof {
                            assert(self.projects@ =~= old(self).projects@.update(
                                i as int,
                                self.projects@[i as int],
                            ));
                            let p0 = old(self).projects@[i as int];
                            let p1 = self.projects@[i as int];
                            assert forall|k: int| 0 <= k < p1.items@.len() implies p1.items@[k].project_id@
                                == p1.id@ by {
                                if k < p1.items@.len() - 1 {
                                    assert(p0.items@[k].project_id@ == p0.id@);
                                }
                            };
                            lemma_wf_doc_update(*old(self), *self, i as int);
                        }
                        Ok(ret)
                    },
                }
            },
        }
    }

    /// Updates the item with the given id, wherever it is: supplied
    /// fields overwrite under the three-state rule for nullable text
    /// fields, and the owning project's update time is refreshed.  An
    /// unknown id changes nothing and yields `None`.
    pub fn update_item_at(&mut self, id: &str, now: &str, patch: &ItemPatch) -> (r: Option<Item>)
        requires
            old(self).wf(),
        ensures
            final(self).wf(),
            r is None ==> *final(self) == *old(self) && (forall|i: int, k: int|
                0 <= i < old(self).projects@.len() && 0 <= k
                    < old(self).projects@[i].items@.len() ==> old(self).projects@[i].items@[k].id@ != id@),
            r matches Some(it) ==> some_item_updated(*old(self), *final(self), id@, now@, *patch, it),
    {
        let ghost oldself = *old(self);
        let mut i: usize = 0;
        while i < self.projects.len()
            invariant
                *self == oldself,
                old(self).wf(),
                *old(self) == oldself,
                i <= self.projects@.len(),
                forall|i2: int, k: int|
                    0 <= i2 < i as int && 0 <= k < self.projects@[i2].items@.len()
                        ==> self.projects@[i2].items@[k].id@ != id@,
            decreases self.projects@.len() - i,
        {
            let found = find_item_in(&self.projects[i].items, id);
            if let Some(k) = found {
                let mut pd = self.projects.remove(i);
                let mut it = pd.items.remove(k);
                crate::update::apply_item_patch(&mut it, patch, now);
                let ret = it.clone();
                pd.items.insert(k, it);
                pd.updated_at = now.to_owned();
                self.projects.insert(i, pd);
                proof {
                    assert(self.projects@ =~= old(self).projects@.update(
                        i as int,
                        self.projects@[i as int],
                    ));
                    assert(self.projects@[i as int].items@ =~= old(self).projects@[
                        i as int].items@.update(k as int, self.projects@[i as int].items@[k as int]));
                    let p0 = old(self).projects@[i as int];
                    let p1 = self.projects@[i as int];
                    assert forall|k2: int| 0 <= k2 < p1.items@.len() implies p1.items@[k2].project_id@
                        == p1.id@ by {
                        assert(p0.items@[k2].project_id@ == p0.id@);
                    };
                    lemma_wf_doc_update(*old(self), *self, i as int);
                    assert(some_item_updated(*old(self), *self, id@, now@, *patch, ret)) by {
                        assert(item_updated(
                            *old(self),
                            *self,
                            id@,
                            now@,
                            *patch,
                            ret,
                            i as int,
                            k as int,
                        ));
                    };
                }
                return Some(ret);
            }
            i = i + 1;
        }
        None
    }

    /// Deletes the first item with the given id, wherever it is, and
    /// refreshes the owning project's update time.  Returns whether an
    /// item was deleted.
    pub fn delete_item_at(&mut self, id: &str, now: &str) -> (r: bool)
        requires
            old(self).wf(),
        ensures
            final(self).wf(),
            !r ==> *final(self) == *old(self) && (forall|i: int, k: int|
                0 <= i < old(self).projects@.len() && 0 <= k
                    < old(self).projects@[i].items@.len() ==> old(self).projects@[i].items@[k].id@ != id@),
            r ==> some_item_deleted(*old(self), *final(self), id@, now@),
    {
        let ghost oldself = *old(self);
        let mut i: usize = 0;
        while i < self.projects.len()
            invariant
                *self == oldself,
                old(self).wf(),
                *old(self) == oldself,
                i <= self.projects@.len(),
                forall|i2: int, k: int|
                    0 <= i2 < i as int && 0 <= k < self.projects@[i2].items@.len()
                        ==> self.projects@[i2].items@[k].id@ != id@,
            decreases self.projects@.len() - i,
        {
            let found = find_item_in(&self.projects[i].items, id);
            if let Some(k) = found {
                let mut pd = self.projects.remove(i);
                pd.items.remove(k);
                pd.updated_at = now.to_owned();
                self.projects.insert(i, pd);
                proof {
                    assert(self.projects@ =~= old(self).projects@.update(
                        i as int,
                        self.projects@[i as int],
                    ));
                    let p0 = old(self).projects@[i as int];
                    let p1 = self.projects@[i as int];
                    assert forall|k2: int| 0 <= k2 < p1.items@.len() implies p1.items@[k2].project_id@
                        == p1.id@ by {
                        let k0 = if k2 < k as int {
                            k2
                        } else {
                            k2 + 1
                        };
                        assert(p0.items@[k0].project_id@ == p0.id@);
                    };
                    lemma_wf_doc_update(*old(self), *self, i as int);
                    assert(some_item_deleted(*old(self), *self, id@, now@)) by {
                        assert(item_deleted(*old(self), *self, id@, now@, i as int, k as int));
                    };
                }
                return true;
            }
            i = i + 1;
        }
        false
    }
}

/// Finds the position of the first item with the given id.
pub fn find_item_in(items: &Vec<Item>, id: &str) -> (r: Option<usize>)
    ensures
        match r {
            Some(k) => k < items@.len() && items@[k as int].id@ == id@ && (forall|k2: int|
                0 <= k2 < k as int ==> items@[k2].id@ != id@),
            None => forall|k: int| 0 <= k < items@.len() ==> items@[k].id@ != id@,
        },
{
    let mut k: usize = 0;
    while k < items.len()
        invariant
            k <= items@.len(),
            forall|k2: int| 0 <= k2 < k as int ==> items@[k2].id@ != id@,
        decreases items@.len() - k,
    {
        if str_eq(items[k].id.as_str(), id) {
            return Some(k);
        }
        k = k + 1;
    }
    None
}


/// The largest `order` among the first `n` todos, or -1 of none.
pub open spec fn max_todo_order(todos: Seq<TodoItem>, n: int) -> int
    decreases n,
{
    if n <= 0 {
        -1
    } else {
        let m = max_todo_order(todos, n - 1);
        if todos[n - 1].order as int > m {
            todos[n - 1].order as int
        } else {
            m
        }
    }
}

/// The order assigned to a newly created todo.
pub open spec fn next_todo_order(todos: Seq<TodoItem>) -> int {
    max_todo_order(todos, todos.len() as int) + 1
}

/// Computes the next todo order, or `None` when the counter cannot
/// grow without leaving the machine range.
pub fn compute_next_todo_order(todos: &Vec<TodoItem>) -> (r: Option<i32>)
    ensures
        match r {
            Some(o) => o as int == next_todo_order(todos@),
            None => next_todo_order(todos@) > i32::MAX as int,
        },
{
    let mut m: i32 = -1;
    let mut i: usize = 0;
    while i < todos.len()
        invariant
            i <= todos@.len(),
            -1 <= m as int,
            m as int == max_todo_order(todos@, i as int),
        decreases todos@.len() - i,
    {
        if todos[i].order > m {
            m = todos[i].order;
        }
        i = i + 1;
    }
    if m == i32::MAX {
        None
    } else {
        Some(m + 1)
    }
}

/// The largest `z_index` among the first `n` cards, or -1 of none.
pub open spec fn max_card_z(cards: Seq<FileCard>, n: int) -> int
    decreases n,
{
    if n <= 0 {
        -1
    } else {
        let m = max_card_z(cards, n - 1);
        if cards[n - 1].z_index as int > m {
            cards[n - 1].z_index as int
        } else {
            m
        }
    }
}

/// The stacking position assigned to a newly created card: always a
/// fresh maximum.
pub open spec fn next_card_z(cards: Seq<FileCard>) -> int {
    max_card_z(cards, cards.len() as int) + 1
}

/// Computes the next stacking position, or `None` when the counter
/// cannot grow without leaving the machine range.
pub fn compute_next_card_z(cards: &Vec<FileCard>) -> (r: Option<i32>)
    ensures
        match r {
            Some(o) => o as int == next_card_z(cards@),
            None => next_card_z(cards@) > i32::MAX as int,
        },
{
    let mut m: i32 = -1;
    let mut i: usize = 0;
    while i < cards.len()
        invariant
            i <= cards@.len(),
            -1 <= m as int,
            m as int == max_card_z(cards@, i as int),
        decreases cards@.len() - i,
    {
        if cards[i].z_index > m {
            m = cards[i].z_index;
        }
        i = i + 1;
    }
    if m == i32::MAX {
        None
    } else {
        Some(m + 1)
    }
}


/// The shape of a store after the file card at position `k` of project
/// `i` was patched: the card obeys the patch semantics, the owning
/// project is freshly stamped, and nothing else changed.
pub open spec fn card_updated(
    pre: JsonStore,
    post: JsonStore,
    id: Seq<char>,
    now: Seq<char>,
    patch: FileCardPatch,
    fc: FileCard,
    i: int,
    k: int,
) -> bool {
    &&& 0 <= i < pre.projects@.len()
    &&& 0 <= k < pre.projects@[i].file_cards@.len()
    &&& pre.projects@[i].file_cards@[k].id@ == id
    &&& crate::update::spec_file_card_after(pre.projects@[i].file_cards@[k], patch, now, fc)
    &&& post.metadata == pre.metadata
    &&& post.last_metadata_mtime == pre.last_metadata_mtime
    &&& post.projects@.len() == pre.projects@.len()
    &&& (forall|i2: int|
        0 <= i2 < pre.projects@.len() && i2 != i ==> post.projects@[i2] == pre.projects@[i2])
    &&& post.projects@[i].file_cards@ == pre.projects@[i].file_cards@.update(k, fc)
    &&& post.projects@[i].id == pre.projects@[i].id
    &&& post.projects@[i].name == pre.projects@[i].name
    &&& post.projects@[i].description == pre.projects@[i].description
    &&& post.projects@[i].metadata == pre.projects@[i].metadata
    &&& post.projects@[i].items == pre.projects@[i].items
    &&& post.projects@[i].todos == pre.projects@[i].todos
    &&& post.projects@[i].created_at == pre.projects@[i].created_at
    &&& post.projects@[i].updated_at@ == now
}

/// Whether some card position witnesses `card_updated`.
pub open spec fn some_card_updated(
    pre: JsonStore,
    post: JsonStore,
    id: Seq<char>,
    now: Seq<char>,
    patch: FileCardPatch,
    fc: FileCard,
) -> bool {
    exists|i: int, k: int| card_updated(pre, post, id, now, patch, fc, i, k)
}

/// Finds the position of the first todo with the given id.
pub fn find_todo_in(todos: &Vec<TodoItem>, id: &str) -> (r: Option<usize>)
    ensures
        match r {
            Some(k) => k < todos@.len() && todos@[k as int].id@ == id@ && (forall|k2: int|
                0 <= k2 < k as int ==> todos@[k2].id@ != id@),
            None => forall|k: int| 0 <= k < todos@.len() ==> todos@[k].id@ != id@,
        },
{
    let mut k: usize = 0;
    while k < todos.len()
        invariant
            k <= todos@.len(),
            forall|k2: int| 0 <= k2 < k as int ==> todos@[k2].id@ != id@,
        decreases todos@.len() - k,
    {
        if str_eq(todos[k].id.as_str(), id) {
            return Some(k);
        }
        k = k + 1;
    }
    None
}

/// Finds the position of the first file card with the given id.
pub fn find_card_in(cards: &Vec<FileCard>, id: &str) -> (r: Option<usize>)
    ensures
        match r {
            Some(k) => k < cards@.len() && cards@[k as int].id@ == id@ && (forall|k2: int|
                0 <= k2 < k as int ==> cards@[k2].id@ != id@),
            None => forall|k: int| 0 <= k < cards@.len() ==> cards@[k].id@ != id@,
        },
{
    let mut k: usize = 0;
    while k < cards.len()
        invariant
            k <= cards@.len(),
            forall|k2: int| 0 <= k2 < k as int ==> cards@[k2].id@ != id@,
        decreases cards@.len() - k,
    {
        if str_eq(cards[k].id.as_str(), id) {
            return Some(k);
        }
        k = k + 1;
    }
    None
}

impl JsonStore {
    /// Creates a todo in the given project with the given fresh id at
    /// the given time: not completed, next order counter, and the
    /// project's update time refreshed.  Creation in an unknown project
    /// is an error and changes nothing.
    pub fn create_todo_at(
        &mut self,
        project_id: &str,
        id: &str,
        now: &str,
        content: &str,
        indent_level: i32,
    ) -> (r: Result<TodoItem, String>)
        requires
            old(self).wf(),
        ensures
            final(self).wf(),
            !old(self).has_doc(project_id@) ==> r is Err && *final(self) == *old(self),
            old(self).has_doc(project_id@) ==> ({
                let i = old(self).doc_at(project_id@);
                let p0 = old(self).projects@[i];
                if next_todo_order(p0.todos@) <= i32::MAX as int {
                    let p1 = final(self).projects@[i];
                    &&& (r matches Ok(td)
                        && td.id@ == id@
                        && td.project_id@ == project_id@
                        && td.content@ == content@
                        && td.completed == false
                        && td.order as int == next_todo_order(p0.todos@)
                        && td.indent_level == indent_level
                        && td.created_at@ == now@
                        && td.updated_at@ == now@
                        && td.completed_at is None
                        && p1.todos@ == p0.todos@.push(td))
                    &&& final(self).metadata == old(self).metadata
                    &&& final(self).last_metadata_mtime == old(self).last_metadata_mtime
                    &&& final(self).projects@.len() == old(self).projects@.len()
                    &&& forall|k: int|
                        0 <= k < old(self).projects@.len() && k != i ==> final(self).projects@[k]
                            == old(self).projects@[k]
                    &&& p1.id == p0.id
                    &&& p1.name == p0.name
                    &&& p1.description == p0.description
                    &&& p1.metadata == p0.metadata
                    &&& p1.items == p0.items
                    &&& p1.file_cards == p0.file_cards
                    &&& p1.created_at == p0.created_at
                    &&& p1.updated_at@ == now@
                } else {
                    r is Err && *final(self) == *old(self)
                }
            }),
    {
        let found = self.find_doc(project_id);
        match found {
            None => Err("project not found".to_owned()),
            Some(i) => {
                proof {
                    lemma_docs_at_unique(self.projects@, project_id@, i as int);
                }
                let order_opt = compute_next_todo_order(&self.projects[i].todos);
                match order_opt {
                    None => Err("todo order counter exhausted".to_owned()),
                    Some(order) => {
                        let td = TodoItem {
                            id: id.to_owned(),
                            project_id: project_id.to_owned(),
                            content: content.to_owned(),
                            completed: false,
                            order,
                            indent_level,
                            created_at: now.to_owned(),
                            updated_at: now.to_owned(),
                            completed_at: None,
                        };
                        let ret = td.clone();
                        let mut pd = self.projects.remove(i);
                        pd.todos.push(td);
                        pd.updated_at = now.to_owned();
                        self.projects.insert(i, pd);
                        proof {
                            assert(self.projects@ =~= old(self).projects@.update(
                                i as int,
                                self.projects@[i as int],
                            ));
                            let p0 = old(self).projects@[i as int];
                            let p1 = self.projects@[i as int];
                            assert forall|k: int| 0 <= k < p1.todos@.len() implies p1.todos@[k].project_id@
                                == p1.id@ by {
                                if k < p1.todos@.len() - 1 {
                                    assert(p0.todos@[k].project_id@ == p0.id@);
                                }
                            };
                            lemma_wf_doc_update(*old(self), *self, i as int);
                        }
                        Ok(ret)
                    },
                }
            },
        }
    }

    /// Updates the todo with the given id, wherever it is, maintaining
    /// the completion timestamp: completing a todo for the first time
    /// stamps it, re-opening clears it, re-completing stamps it afresh.
    /// The owning project's update time is refreshed.  An unknown id
    /// changes nothing and yields `None`.
    pub fn update_todo_at(&mut self, id: &str, now: &str, patch: &TodoPatch) -> (r: Option<
        TodoItem,
    >)
        requires
            old(self).wf(),
        ensures
            final(self).wf(),
            r is None ==> *final(self) == *old(self) && (forall|i: int, k: int|
                0 <= i < old(self).projects@.len() && 0 <= k
                    < old(self).projects@[i].todos@.len() ==> old(self).projects@[i].todos@[k].id@
                    != id@),
            r matches Some(td) ==> some_todo_updated(*old(self), *final(self), id@, now@, *patch, td),
    {
        let ghost oldself = *old(self);
        let mut i: usize = 0;
        while i < self.projects.len()
            invariant
                *self == oldself,
                old(self).wf(),
                *old(self) == oldself,
                i <= self.projects@.len(),
                forall|i2: int, k: int|
                    0 <= i2 < i as int && 0 <= k < self.projects@[i2].todos@.len()
                        ==> self.projects@[i2].todos@[k].id@ != id@,
            decreases self.projects@.len() - i,
        {
            let found = find_todo_in(&self.projects[i].todos, id);
            if let Some(k) = found {
                let mut pd = self.projects.remove(i);
                let mut td = pd.todos.remove(k);
                crate::update::apply_todo_patch(&mut td, patch, now);
                let ret = td.clone();
                pd.todos.insert(k, td);
                pd.updated_at = now.to_owned();
                self.projects.insert(i, pd);
                proof {
                    assert(self.projects@ =~= old(self).projects@.update(
                        i as int,
                        self.projects@[i as int],
                    ));
                    assert(self.projects@[i as int].todos@ =~= old(self).projects@[
                        i as int].todos@.update(k as int, self.projects@[i as int].todos@[k as int]));
                    let p0 = old(self).projects@[i as int];
                    let p1 = self.projects@[i as int];
                    assert forall|k2: int| 0 <= k2 < p1.todos@.len() implies p1.todos@[k2].project_id@
                        == p1.id@ by {
                        assert(p0.todos@[k2].project_id@ == p0.id@);
                    };
                    lemma_wf_doc_update(*old(self), *self, i as int);
                    assert(some_todo_updated(*old(self), *self, id@, now@, *patch, ret)) by {
                        assert(todo_updated(
                            *old(self),
                            *self,
                            id@,
                            now@,
                            *patch,
                            ret,
                            i as int,
                            k as int,
                        ));
                    };
                }
                return Some(ret);
            }
            i = i + 1;
        }
        None
    }

    /// Deletes the first todo with the given id, wherever it is, and
    /// refreshes the owning project's update time.  Returns whether a
    /// todo was deleted.
    pub fn delete_todo_at(&mut self, id: &str, now: &str) -> (r: bool)
        requires
            old(self).wf(),
        ensures
            final(self).wf(),
            !r ==> *final(self) == *old(self) && (forall|i: int, k: int|
                0 <= i < old(self).projects@.len() && 0 <= k
                    < old(self).projects@[i].todos@.len() ==> old(self).projects@[i].todos@[k].id@
                    != id@),
            r ==> some_todo_deleted(*old(self), *final(self), id@, now@),
    {
        let ghost oldself = *old(self);
        let mut i: usize = 0;
        while i < self.projects.len()
            invariant
                *self == oldself,
                old(self).wf(),
                *old(self) == oldself,
                i <= self.projects@.len(),
                forall|i2: int, k: int|
                    0 <= i2 < i as int && 0 <= k < self.projects@[i2].todos@.len()
                        ==> self.projects@[i2].todos@[k].id@ != id@,
            decreases self.projects@.len() - i,
        {
            let found = find_todo_in(&self.projects[i].todos, id);
            if let Some(k) = found {
                let mut pd = self.projects.remove(i);
                pd.todos.remove(k);
                pd.updated_at = now.to_owned();
                self.projects.insert(i, pd);
                proof {
                    assert(self.projects@ =~= old(self).projects@.update(
                        i as int,
                        self.projects@[i as int],
                    ));
                    let p0 = old(self).projects@[i as int];
                    let p1 = self.projects@[i as int];
                    assert forall|k2: int| 0 <= k2 < p1.todos@.len() implies p1.todos@[k2].project_id@
                        == p1.id@ by {
                        let k0 = if k2 < k as int {
                            k2
                        } else {
                            k2 + 1
                        };
                        assert(p0.todos@[k0].project_id@ == p0.id@);
                    };
                    lemma_wf_doc_update(*old(self), *self, i as int);
                    assert(some_todo_deleted(*old(self), *self, id@, now@)) by {
                        assert(todo_deleted(*old(self), *self, id@, now@, i as int, k as int));
                    };
                }
                return true;
            }
            i = i + 1;
        }
        false
    }

    /// Creates a file card in the given project with the given fresh id
    /// at the given time: collapsed, not minimized, stacked on top (a
    /// fresh maximum), and the project's update time refreshed.
    /// Creation in an unknown project is an error and changes nothing.
    pub fn create_file_card_at(
        &mut self,
        project_id: &str,
        id: &str,
        now: &str,
        filename: &str,
        file_path: &str,
        position_x: u64,
        position_y: u64,
    ) -> (r: Result<FileCard, String>)
        requires
            old(self).wf(),
        ensures
            final(self).wf(),
            !old(self).has_doc(project_id@) ==> r is Err && *final(self) == *old(self),
            old(self).has_doc(project_id@) ==> ({
                let i = old(self).doc_at(project_id@);
                let p0 = old(self).projects@[i];
                if next_card_z(p0.file_cards@) <= i32::MAX as int {
                    let p1 = final(self).projects@[i];
                    &&& (r matches Ok(fc)
                        && fc.id@ == id@
                        && fc.project_id@ == project_id@
                        && fc.filename@ == filename@
                        && fc.file_path@ == file_path@
                        && fc.position_x == position_x
                        && fc.position_y == position_y
                        && fc.is_expanded == false
                        && fc.is_minimized == false
                        && fc.z_index as int == next_card_z(p0.file_cards@)
                        && fc.created_at@ == now@
                        && fc.updated_at@ == now@
                        && p1.file_cards@ == p0.file_cards@.push(fc))
                    &&& final(self).metadata == old(self).metadata
                    &&& final(self).last_metadata_mtime == old(self).last_metadata_mtime
                    &&& final(self).projects@.len() == old(self).projects@.len()
                    &&& forall|k: int|
                        0 <= k < old(self).projects@.len() && k != i ==> final(self).projects@[k]
                            == old(self).projects@[k]
                    &&& p1.id == p0.id
                    &&& p1.name == p0.name
                    &&& p1.description == p0.description
                    &&& p1.metadata == p0.metadata
                    &&& p1.items == p0.items
                    &&& p1.todos == p0.todos
                    &&& p1.created_at == p0.created_at
                    &&& p1.updated_at@ == now@
                } else {
                    r is Err && *final(self) == *old(self)
                }
            }),
    {
        let found = self.find_doc(project_id);
        match found {
            None => Err("project not found".to_owned()),
            Some(i) => {
                proof {
                    lemma_docs_at_unique(self.projects@, project_id@, i as int);
                }
                let z_opt = compute_next_card_z(&self.projects[i].file_cards);
                match z_opt {
                    None => Err("stacking counter exhausted".to_owned()),
                    Some(z_index) => {
                        let fc = FileCard {
                            id: id.to_owned(),
                            project_id: project_id.to_owned(),
                            filename: filename.to_owned(),
                            file_path: file_path.to_owned(),
                            position_x,
                            position_y,
                            is_expanded: false,
                            is_minimized: false,
                            z_index,
                            created_at: now.to_owned(),
                            updated_at: now.to_owned(),
                        };
                        let ret = fc.clone();
                        let mut pd = self.projects.remove(i);
                        pd.file_cards.push(fc);
                        pd.updated_at = now.to_owned();
                        self.projects.insert(i, pd);
                        proof {
                            assert(self.projects@ =~= old(self).projects@.update(
                                i as int,
                                self.projects@[i as int],
                            ));
                            let p0 = old(self).projects@[i as int];
                            let p1 = self.projects@[i as int];
                            assert forall|k: int| 0 <= k < p1.file_cards@.len() implies p1.file_cards@[k].project_id@
                                == p1.id@ by {
                                if k < p1.file_cards@.len() - 1 {
                                    assert(p0.file_cards@[k].project_id@ == p0.id@);
                                }
                            };
                            lemma_wf_doc_update(*old(self), *self, i as int);
                        }
                        Ok(ret)
                    },
                }
            },
        }
    }

    /// Updates the file card with the given id, wherever it is, and
    /// refreshes the owning project's update time.  An unknown id
    /// changes nothing and yields `None`.
    #[verifier::spinoff_prover]
    #[verifier::rlimit(100)]
    pub fn update_file_card_at(&mut self, id: &str, now: &str, patch: &FileCardPatch) -> (r:
        Option<FileCard>)
        requires
            old(self).wf(),
        ensures
            final(self).wf(),
            r is None ==> *final(self) == *old(self) && (forall|i: int, k: int|
                0 <= i < old(self).projects@.len() && 0 <= k
                    < old(self).projects@[i].file_cards@.len() ==> old(self).projects@[i].file_cards@[k].id@ != id@),
            r matches Some(fc) ==> some_card_updated(*old(self), *final(self), id@, now@, *patch, fc),
    {
        let ghost oldself = *old(self);
        let mut i: usize = 0;
        while i < self.projects.len()
            invariant
                *self == oldself,
                old(self).wf(),
                *old(self) == oldself,
                i <= self.projects@.len(),
                forall|i2: int, k: int|
                    0 <= i2 < i as int && 0 <= k < self.projects@[i2].file_cards@.len()
                        ==> self.projects@[i2].file_cards@[k].id@ != id@,
            decreases self.projects@.len() - i,
        {
            let found = find_card_in(&self.projects[i].file_cards, id);
            if let Some(k) = found {
                let mut pd = self.projects.remove(i);
                let mut fc = pd.file_cards.remove(k);
                crate::update::apply_file_card_patch(&mut fc, patch, now);
                let ret = fc.clone();
                pd.file_cards.insert(k, fc);
                pd.updated_at = now.to_owned();
                self.projects.insert(i, pd);
                proof {
                    assert(self.projects@ =~= old(self).projects@.update(
                        i as int,
                        self.projects@[i as int],
                    ));
                    assert(self.projects@[i as int].file_cards@ =~= old(self).projects@[
                        i as int].file_cards@.update(k as int, self.projects@[i as int].file_cards@[k as int]));
                    let p0 = old(self).projects@[i as int];
                    let p1 = self.projects@[i as int];
                    assert forall|k2: int| 0 <= k2 < p1.file_cards@.len() implies p1.file_cards@[k2].project_id@
                        == p1.id@ by {
                        assert(p0.file_cards@[k2].project_id@ == p0.id@);
                    };
                    lemma_wf_doc_update(*old(self), *self, i as int);
                    assert(some_card_updated(*old(self), *self, id@, now@, *patch, ret)) by {
                        assert(card_updated(*old(self), *self, id@, now@, *patch, ret, i as int, k as int));
                    };
                }
                return Some(ret);
            }
            i = i + 1;
        }
        None
    }

    /// Deletes the first file card with the given id, wherever it is,
    /// and refreshes the owning project's update time.  Returns whether
    /// a card was deleted.
    pub fn delete_file_card_at(&mut self, id: &str, now: &str) -> (r: bool)
        requires
            old(self).wf(),
        ensures
            final(self).wf(),
            !r ==> *final(self) == *old(self) && (forall|i: int, k: int|
                0 <= i < old(self).projects@.len() && 0 <= k
                    < old(self).projects@[i].file_cards@.len() ==> old(self).projects@[i].file_cards@[k].id@ != id@),
            r ==> some_card_deleted(*old(self), *final(self), id@, now@),
    {
        let ghost oldself = *old(self);
        let mut i: usize = 0;
        while i < self.projects.len()
            invariant
                *self == oldself,
                old(self).wf(),
                *old(self) == oldself,
                i <= self.projects@.len(),
                forall|i2: int, k: int|
                    0 <= i2 < i as int && 0 <= k < self.projects@[i2].file_cards@.len()
                        ==> self.projects@[i2].file_cards@[k].id@ != id@,
            decreases self.projects@.len() - i,
        {
            let found = find_card_in(&self.projects[i].file_cards, id);
            if let Some(k) = found {
                let mut pd = self.projects.remove(i);
                pd.file_cards.remove(k);
                pd.updated_at = now.to_owned();
                self.projects.insert(i, pd);
                proof {
                    assert(self.projects@ =~= old(self).projects@.update(
                        i as int,
                        self.projects@[i as int],
                    ));
                    let p0 = old(self).projects@[i as int];
                    let p1 = self.projects@[i as int];
                    assert forall|k2: int| 0 <= k2 < p1.file_cards@.len() implies p1.file_cards@[k2].project_id@
                        == p1.id@ by {
                        let k0 = if k2 < k as int {
                            k2
                        } else {
                            k2 + 1
                        };
                        assert(p0.file_cards@[k0].project_id@ == p0.id@);
                    };
                    lemma_wf_doc_update(*old(self), *self, i as int);
                    assert(some_card_deleted(*old(self), *self, id@, now@)) by {
                        assert(card_deleted(*old(self), *self, id@, now@, i as int, k as int));
                    };
                }
                return true;
            }
            i = i + 1;
        }
        false
    }

    /// The completion statistics of a project's checklist; an unknown
    /// project counts as empty.
    pub fn get_todo_progress(&self, project_id: &str) -> (r: Result<TodoProgress, String>)
        requires
            self.wf(),
            self.projects@.len() < i32::MAX as int,
            forall|i: int|
                0 <= i < self.projects@.len() ==> (#[trigger] self.projects@[i]).todos@.len()
                    <= i32::MAX as int,
        ensures
            r matches Ok(p) && ({
                if self.has_doc(project_id@) {
                    let todos = self.projects@[self.doc_at(project_id@)].todos@;
                    p.total as int == todos.len() && p.completed as int == count_completed(
                        todos,
                        todos.len() as int,
                    )
                } else {
                    p.total == 0 && p.completed == 0
                }
            }),
    {
        let found = self.find_doc(project_id);
        match found {
            None => Ok(TodoProgress { total: 0, completed: 0 }),
            Some(i) => {
                proof {
                    lemma_docs_at_unique(self.projects@, project_id@, i as int);
                }
                let todos = &self.projects[i].todos;
                let mut completed: i32 = 0;
                let mut k: usize = 0;
                while k < todos.len()
                    invariant
                        k <= todos@.len(),
                        todos@.len() <= i32::MAX as int,
                        0 <= completed as int <= k as int,
                        completed as int == count_completed(todos@, k as int),
                    decreases todos@.len() - k,
                {
                    if todos[k].completed {
                        completed = completed + 1;
                    }
                    k = k + 1;
                }
                Ok(TodoProgress { total: todos.len() as i32, completed })
            },
        }
    }
}

/// How many of the first `n` todos are completed.
pub open spec fn count_completed(todos: Seq<TodoItem>, n: int) -> int
    decreases n,
{
    if n <= 0 {
        0
    } else {
        count_completed(todos, n - 1) + if todos[n - 1].completed {
            1int
        } else {
            0int
        }
    }
}


/// Sorts todos ascending by their `order` field; the result is a
/// rearrangement of the input.
pub fn sort_todos_by_order(v: Vec<TodoItem>) -> (r: Vec<TodoItem>)
    ensures
        r@.len() == v@.len(),
        forall|a: int, b: int| 0 <= a < b < r@.len() ==> r@[a].order <= r@[b].order,
        r@.to_multiset() == v@.to_multiset(),
{
    broadcast use vstd::seq_lib::group_to_multiset_ensures;

    let mut out: Vec<TodoItem> = Vec::new();
    let mut i: usize = 0;
    proof {
        assert(v@.subrange(0, 0) =~= Seq::<TodoItem>::empty());
        assert(Seq::<TodoItem>::empty().to_multiset() =~= out@.to_multiset());
    }
    while i < v.len()
        invariant
            i <= v@.len(),
            out@.len() == i as int,
            forall|a: int, b: int| 0 <= a < b < out@.len() ==> out@[a].order <= out@[b].order,
            out@.to_multiset() == v@.subrange(0, i as int).to_multiset(),
        decreases v@.len() - i,
    {
        let x = v[i].clone();
        let mut p: usize = 0;
        while p < out.len() && out[p].order <= x.order
            invariant
                p <= out@.len(),
                forall|q: int| 0 <= q < p as int ==> out@[q].order <= x.order,
                forall|a: int, b: int| 0 <= a < b < out@.len() ==> out@[a].order <= out@[b].order,
            decreases out@.len() - p,
        {
            p = p + 1;
        }
        let ghost out0 = out@;
        out.insert(p, x);
        proof {
            broadcast use vstd::seq_lib::group_to_multiset_ensures;

            crate::order::lemma_insert_to_multiset(out0, p as int, x);
            assert(v@.subrange(0, i as int + 1) =~= v@.subrange(0, i as int).push(v@[i as int]));
            assert(v@.subrange(0, i as int).push(v@[i as int]).to_multiset() =~= v@.subrange(
                0,
                i as int,
            ).to_multiset().insert(v@[i as int]));
            assert(out@.to_multiset() =~= v@.subrange(0, i as int + 1).to_multiset());
            assert forall|a: int, b: int| 0 <= a < b < out@.len() implies out@[a].order
                <= out@[b].order by {
                if a < p as int && b == p as int {
                    assert(out@[a] == out0[a]);
                } else if a == p as int && b > p as int {
                    assert(out@[b] == out0[b - 1]);
                    assert(out0[p as int].order > x.order || p as int == out0.len());
                    assert(out0[p as int].order <= out0[b - 1].order || p as int == b - 1);
                } else if a < p as int && b > p as int {
                    assert(out@[a] == out0[a] && out@[b] == out0[b - 1]);
                } else if a > p as int {
                    assert(out@[a] == out0[a - 1] && out@[b] == out0[b - 1]);
                }
            };
        }
        i = i + 1;
    }
    proof {
        assert(v@.subrange(0, v@.len() as int) =~= v@);
    }
    out
}

/// Sorts file cards ascending by their stacking position; the result
/// is a rearrangement of the input.
pub fn sort_cards_by_z(v: Vec<FileCard>) -> (r: Vec<FileCard>)
    ensures
        r@.len() == v@.len(),
        forall|a: int, b: int| 0 <= a < b < r@.len() ==> r@[a].z_index <= r@[b].z_index,
        r@.to_multiset() == v@.to_multiset(),
{
    broadcast use vstd::seq_lib::group_to_multiset_ensures;

    let mut out: Vec<FileCard> = Vec::new();
    let mut i: usize = 0;
    proof {
        assert(v@.subrange(0, 0) =~= Seq::<FileCard>::empty());
        assert(Seq::<FileCard>::empty().to_multiset() =~= out@.to_multiset());
    }
    while i < v.len()
        invariant
            i <= v@.len(),
            out@.len() == i as int,
            forall|a: int, b: int| 0 <= a < b < out@.len() ==> out@[a].z_index <= out@[b].z_index,
            out@.to_multiset() == v@.subrange(0, i as int).to_multiset(),
        decreases v@.len() - i,
    {
        let x = v[i].clone();
        let mut p: usize = 0;
        while p < out.len() && out[p].z_index <= x.z_index
            invariant
                p <= out@.len(),
                forall|q: int| 0 <= q < p as int ==> out@[q].z_index <= x.z_index,
                forall|a: int, b: int|
                    0 <= a < b < out@.len() ==> out@[a].z_index <= out@[b].z_index,
            decreases out@.len() - p,
        {
            p = p + 1;
        }
        let ghost out0 = out@;
        out.insert(p, x);
        proof {
            broadcast use vstd::seq_lib::group_to_multiset_ensures;

            crate::order::lemma_insert_to_multiset(out0, p as int, x);
            assert(v@.subrange(0, i as int + 1) =~= v@.subrange(0, i as int).push(v@[i as int]));
            assert(v@.subrange(0, i as int).push(v@[i as int]).to_multiset() =~= v@.subrange(
                0,
                i as int,
            ).to_multiset().insert(v@[i as int]));
            assert(out@.to_multiset() =~= v@.subrange(0, i as int + 1).to_multiset());
            assert forall|a: int, b: int| 0 <= a < b < out@.len() implies out@[a].z_index
                <= out@[b].z_index by {
                if a < p as int && b == p as int {
                    assert(out@[a] == out0[a]);
                } else if a == p as int && b > p as int {
                    assert(out@[b] == out0[b - 1]);
                    assert(out0[p as int].z_index > x.z_index || p as int == out0.len());
                    assert(out0[p as int].z_index <= out0[b - 1].z_index || p as int == b - 1);
                } else if a < p as int && b > p as int {
                    assert(out@[a] == out0[a] && out@[b] == out0[b - 1]);
                } else if a > p as int {
                    assert(out@[a] == out0[a - 1] && out@[b] == out0[b - 1]);
                }
            };
        }
        i = i + 1;
    }
    proof {
        assert(v@.subrange(0, v@.len() as int) =~= v@);
    }
    out
}

/// Sorts projects so that the most recently updated comes first; the
/// result is a rearrangement of the input.
pub fn sort_projects_by_updated_desc(v: Vec<Project>) -> (r: Vec<Project>)
    ensures
        r@.len() == v@.len(),
        forall|a: int, b: int|
            0 <= a < b < r@.len() ==> crate::order::lex_le(r@[b].updated_at@, r@[a].updated_at@),
        r@.to_multiset() == v@.to_multiset(),
{
    broadcast use vstd::seq_lib::group_to_multiset_ensures;

    let ghost orig = v@;
    let mut v = v;
    let mut out: Vec<Project> = Vec::new();
    proof {
        assert forall|a: Project|
            out@.to_multiset().add(v@.to_multiset()).count(a) == orig.to_multiset().count(
                a,
            ) by {
            assert(out@.to_multiset().count(a) == 0);
        };
        assert(out@.to_multiset().add(v@.to_multiset()) =~= orig.to_multiset());
    }
    while v.len() > 0
        invariant
            out@.len() + v@.len() == orig.len(),
            forall|a: int, b: int|
                0 <= a < b < out@.len() ==> crate::order::lex_le(
                    out@[b].updated_at@,
                    out@[a].updated_at@,
                ),
            out@.to_multiset().add(v@.to_multiset()) == orig.to_multiset(),
        decreases v@.len(),
    {
        let ghost v0 = v@;
        let x = v.remove(0);
        proof {
            broadcast use vstd::seq_lib::group_to_multiset_ensures;

            assert(v@ =~= v0.remove(0));
            assert(v0.remove(0).to_multiset() =~= v0.to_multiset().remove(x));
            assert(v0.contains(x));
            assert(v0.to_multiset().count(x) > 0);
        }
        let mut p: usize = 0;
        while p < out.len() && crate::order::str_le(
            x.updated_at.as_str(),
            out[p].updated_at.as_str(),
        )
            invariant
                p <= out@.len(),
                forall|q: int|
                    0 <= q < p as int ==> crate::order::lex_le(x.updated_at@, out@[q].updated_at@),
                forall|a: int, b: int|
                    0 <= a < b < out@.len() ==> crate::order::lex_le(
                        out@[b].updated_at@,
                        out@[a].updated_at@,
                    ),
            decreases out@.len() - p,
        {
            p = p + 1;
        }
        proof {
            if (p as int) < out@.len() {
                crate::order::lemma_lex_le_total(x.updated_at@, out@[p as int].updated_at@);
            }
        }
        let ghost out0 = out@;
        out.insert(p, x);
        proof {
            broadcast use vstd::seq_lib::group_to_multiset_ensures;

            crate::order::lemma_insert_to_multiset(out0, p as int, x);
            assert forall|a: Project|
                out@.to_multiset().add(v@.to_multiset()).count(a) == orig.to_multiset().count(
                    a,
                ) by {
                assert(out@.to_multiset().count(a) == out0.to_multiset().insert(x).count(a));
                assert(v@.to_multiset().count(a) == v0.to_multiset().remove(x).count(a));
                assert(out0.to_multiset().add(v0.to_multiset()).count(a) == orig.to_multiset().count(
                    a,
                ));
            };
            assert(out@.to_multiset().add(v@.to_multiset()) =~= orig.to_multiset());
            assert forall|a: int, b: int| 0 <= a < b < out@.len() implies crate::order::lex_le(
                out@[b].updated_at@,
                out@[a].updated_at@,
            ) by {
                if a < p as int && b == p as int {
                    assert(out@[a] == out0[a]);
                    assert(crate::order::lex_le(x.updated_at@, out0[a].updated_at@));
                } else if a == p as int && b > p as int {
                    assert(out@[b] == out0[b - 1]);
                    assert(crate::order::lex_le(out0[p as int].updated_at@, x.updated_at@) || p
                        as int == out0.len());
                    if p as int <= b - 2 {
                        assert(crate::order::lex_le(
                            out0[b - 1].updated_at@,
                            out0[p as int].updated_at@,
                        ));
                        crate::order::lemma_lex_le_trans(
                            out0[b - 1].updated_at@,
                            out0[p as int].updated_at@,
                            x.updated_at@,
                        );
                    }
                } else if a < p as int && b > p as int {
                    assert(out@[a] == out0[a] && out@[b] == out0[b - 1]);
                } else if a > p as int {
                    assert(out@[a] == out0[a - 1] && out@[b] == out0[b - 1]);
                }
            };
        }
    }
    proof {
        broadcast use vstd::seq_lib::group_to_multiset_ensures;

        assert(v@.to_multiset().len() == 0);
        assert forall|a: Project|
            out@.to_multiset().count(a) == orig.to_multiset().count(a) by {
            assert(out@.to_multiset().add(v@.to_multiset()).count(a) == orig.to_multiset().count(
                a,
            ));
            assert(v@.to_multiset().count(a) == 0);
        };
        assert(out@.to_multiset() =~= orig.to_multiset());
    }
    out
}

/// Whether some entry of `v` is the list view of document `d`.
pub open spec fn listing_present(v: Seq<Project>, d: ProjectData) -> bool {
    exists|t: int| 0 <= t < v.len() && is_listing_of(v[t], d)
}

/// Whether entry `t` of `v` is the list view of some document in `ps`.
pub open spec fn listing_from(v: Seq<Project>, t: int, ps: Seq<ProjectData>) -> bool {
    exists|i: int| 0 <= i < ps.len() && is_listing_of(v[t], ps[i])
}

/// Whether `p` is the list-view image of document `d`: the record
/// fields agree and the items are omitted.
pub open spec fn is_listing_of(p: Project, d: ProjectData) -> bool {
    &&& p.id == d.id
    &&& p.name == d.name
    &&& p.description == d.description
    &&& p.metadata.mdv() == d.metadata.mdv()
    &&& p.created_at == d.created_at
    &&& p.updated_at == d.updated_at
    &&& p.items is None
}

/// Clones a list of todos; the clone holds the same values.
pub fn clone_todos(v: &Vec<TodoItem>) -> (r: Vec<TodoItem>)
    ensures
        r@ == v@,
{
    let mut r: Vec<TodoItem> = Vec::new();
    let mut i: usize = 0;
    while i < v.len()
        invariant
            i <= v.len(),
            r@.len() == i as int,
            forall|j: int| 0 <= j < i as int ==> r@[j] == v@[j],
        decreases v.len() - i,
    {
        r.push(v[i].clone());
        i = i + 1;
    }
    proof {
        assert(r@ =~= v@);
    }
    r
}

/// Clones a list of file cards; the clone holds the same values.
pub fn clone_cards(v: &Vec<FileCard>) -> (r: Vec<FileCard>)
    ensures
        r@ == v@,
{
    let mut r: Vec<FileCard> = Vec::new();
    let mut i: usize = 0;
    while i < v.len()
        invariant
            i <= v.len(),
            r@.len() == i as int,
            forall|j: int| 0 <= j < i as int ==> r@[j] == v@[j],
        decreases v.len() - i,
    {
        r.push(v[i].clone());
        i = i + 1;
    }
    proof {
        assert(r@ =~= v@);
    }
    r
}

/// Clones a list of ids; the clone holds the same values.
pub fn clone_strings(v: &Vec<String>) -> (r: Vec<String>)
    ensures
        r@ == v@,
{
    let mut r: Vec<String> = Vec::new();
    let mut i: usize = 0;
    while i < v.len()
        invariant
            i <= v.len(),
            r@.len() == i as int,
            forall|j: int| 0 <= j < i as int ==> r@[j] == v@[j],
        decreases v.len() - i,
    {
        r.push(v[i].clone());
        i = i + 1;
    }
    proof {
        assert(r@ =~= v@);
    }
    r
}

/// Checks at run time that a list of ids is duplicate-free.
pub fn check_ids_unique(v: &Vec<String>) -> (r: bool)
    ensures
        r == ids_unique(v@),
{
    let mut i: usize = 0;
    while i < v.len()
        invariant
            i <= v@.len(),
            forall|a: int, b: int| 0 <= a < b < i as int ==> v@[a]@ != v@[b]@,
        decreases v@.len() - i,
    {
        let mut j: usize = 0;
        while j < i
            invariant
                j <= i < v@.len(),
                forall|b: int| 0 <= b < j as int ==> v@[b]@ != v@[i as int]@,
            decreases i - j,
        {
            if str_eq(v[j].as_str(), v[i].as_str()) {
                return false;
            }
            j = j + 1;
        }
        i = i + 1;
    }
    true
}

/// Checks at run time that a settings list has duplicate-free keys.
pub fn check_keys_unique(v: &Vec<SettingEntry>) -> (r: bool)
    ensures
        r == keys_unique(v@),
{
    let mut i: usize = 0;
    while i < v.len()
        invariant
            i <= v@.len(),
            forall|a: int, b: int| 0 <= a < b < i as int ==> v@[a].key@ != v@[b].key@,
        decreases v@.len() - i,
    {
        let mut j: usize = 0;
        while j < i
            invariant
                j <= i < v@.len(),
                forall|b: int| 0 <= b < j as int ==> v@[b].key@ != v@[i as int].key@,
            decreases i - j,
        {
            if str_eq(v[j].key.as_str(), v[i].key.as_str()) {
                return false;
            }
            j = j + 1;
        }
        i = i + 1;
    }
    true
}

/// Whether the index file's current modification stamp signals an
/// out-of-band change: any difference counts, newer or older, and so
/// does the file appearing or disappearing.
pub open spec fn spec_external_change(last: Option<u128>, current: Option<u128>) -> bool {
    match (current, last) {
        (Some(c), Some(l)) => c != l,
        (Some(_), None) => true,
        (None, Some(_)) => true,
        (None, None) => false,
    }
}

impl Default for Metadata {
    /// An empty index with schema version 0, as synthesized when the
    /// index file has disappeared.
    fn default() -> (r: Metadata)
        ensures
            r.version == 0,
            r.project_ids@.len() == 0,
            r.global_settings@.len() == 0,
    {
        Metadata { version: 0, project_ids: Vec::new(), global_settings: Vec::new() }
    }
}

impl JsonStore {
    /// All projects as list views (items omitted), the most recently
    /// updated first.
    pub fn get_all_projects(&self) -> (r: Result<Vec<Project>, String>)
        requires
            self.wf(),
        ensures
            r matches Ok(v) && ({
                &&& v@.len() == self.projects@.len()
                &&& (forall|a: int, b: int|
                    0 <= a < b < v@.len() ==> crate::order::lex_le(
                        v@[b].updated_at@,
                        v@[a].updated_at@,
                    ))
                &&& (forall|i: int|
                    0 <= i < self.projects@.len() ==> listing_present(
                        v@,
                        #[trigger] self.projects@[i],
                    ))
                &&& (forall|t: int| 0 <= t < v@.len() ==> listing_from(v@, t, self.projects@))
            }),
    {
        broadcast use vstd::seq_lib::group_to_multiset_ensures;

        let mut out: Vec<Project> = Vec::new();
        let mut i: usize = 0;
        while i < self.projects.len()
            invariant
                i <= self.projects@.len(),
                out@.len() == i as int,
                forall|t: int|
                    0 <= t < i as int ==> is_listing_of(out@[t], #[trigger] self.projects@[t]),
            decreases self.projects@.len() - i,
        {
            out.push(self.projects[i].to_project());
            i = i + 1;
        }
        let ghost pre = out@;
        let sorted = sort_projects_by_updated_desc(out);
        proof {
            assert forall|i2: int| 0 <= i2 < self.projects@.len() implies listing_present(
                sorted@,
                #[trigger] self.projects@[i2],
            ) by {
                assert(is_listing_of(pre[i2], self.projects@[i2]));
                assert(pre.to_multiset().count(pre[i2]) > 0) by {
                    assert(pre.contains(pre[i2]));
                }
                assert(sorted@.to_multiset().count(pre[i2]) > 0);
                assert(sorted@.contains(pre[i2]));
                let t = choose|t: int| 0 <= t < sorted@.len() && sorted@[t] == pre[i2];
                assert(is_listing_of(sorted@[t], self.projects@[i2]));
            };
            assert forall|t: int| 0 <= t < sorted@.len() implies listing_from(
                sorted@,
                t,
                self.projects@,
            ) by {
                assert(sorted@.to_multiset().count(sorted@[t]) > 0) by {
                    assert(sorted@.contains(sorted@[t]));
                }
                assert(pre.to_multiset().count(sorted@[t]) > 0);
                assert(pre.contains(sorted@[t]));
                let u = choose|u: int| 0 <= u < pre.len() && pre[u] == sorted@[t];
                assert(is_listing_of(sorted@[t], self.projects@[u]));
            };
        }
        Ok(sorted)
    }

    /// A single project fetched by id, items included; an unknown or
    /// unloaded id yields `None`, never an error.
    pub fn get_project_by_id(&self, id: &str) -> (r: Result<Option<Project>, String>)
        requires
            self.wf(),
        ensures
            r matches Ok(o) && ({
                if self.index_has(id@) && self.has_doc(id@) {
                    let d = self.projects@[self.doc_at(id@)];
                    o matches Some(p) && p.id == d.id && p.name == d.name && p.description
                        == d.description && p.metadata.mdv() == d.metadata.mdv() && p.created_at
                        == d.created_at && p.updated_at == d.updated_at && (p.items matches Some(v)
                        && v@ == d.items@)
                } else {
                    o is None
                }
            }),
    {
        if self.find_index(id).is_none() {
            return Ok(None);
        }
        match self.find_doc(id) {
            None => Ok(None),
            Some(i) => {
                proof {
                    lemma_docs_at_unique(self.projects@, id@, i as int);
                }
                Ok(Some(self.projects[i].to_project_with_items()))
            },
        }
    }

    /// A project's todos, ascending by their `order` field; an unknown
    /// project yields an empty list.
    pub fn get_todos_by_project(&self, project_id: &str) -> (r: Result<Vec<TodoItem>, String>)
        requires
            self.wf(),
        ensures
            r matches Ok(v) && ({
                if self.has_doc(project_id@) {
                    let d = self.projects@[self.doc_at(project_id@)];
                    &&& v@.to_multiset() == d.todos@.to_multiset()
                    &&& v@.len() == d.todos@.len()
                    &&& (forall|a: int, b: int|
                        0 <= a < b < v@.len() ==> v@[a].order <= v@[b].order)
                } else {
                    v@.len() == 0
                }
            }),
    {
        match self.find_doc(project_id) {
            None => Ok(Vec::new()),
            Some(i) => {
                proof {
                    lemma_docs_at_unique(self.projects@, project_id@, i as int);
                }
                Ok(sort_todos_by_order(clone_todos(&self.projects[i].todos)))
            },
        }
    }

    /// A project's file cards, ascending by stacking position; an
    /// unknown project yields an empty list.
    pub fn get_file_cards_by_project(&self, project_id: &str) -> (r: Result<Vec<FileCard>, String>)
        requires
            self.wf(),
        ensures
            r matches Ok(v) && ({
                if self.has_doc(project_id@) {
                    let d = self.projects@[self.doc_at(project_id@)];
                    &&& v@.to_multiset() == d.file_cards@.to_multiset()
                    &&& v@.len() == d.file_cards@.len()
                    &&& (forall|a: int, b: int|
                        0 <= a < b < v@.len() ==> v@[a].z_index <= v@[b].z_index)
                } else {
                    v@.len() == 0
                }
            }),
    {
        match self.find_doc(project_id) {
            None => Ok(Vec::new()),
            Some(i) => {
                proof {
                    lemma_docs_at_unique(self.projects@, project_id@, i as int);
                }
                Ok(sort_cards_by_z(clone_cards(&self.projects[i].file_cards)))
            },
        }
    }

    /// Drops every loaded document; used after an out-of-band change
    /// was detected, before the documents are reread from disk.
    pub fn clear_cache(&mut self)
        requires
            old(self).wf(),
        ensures
            final(self).wf(),
            final(self).projects@.len() == 0,
            final(self).metadata == old(self).metadata,
            final(self).last_metadata_mtime == old(self).last_metadata_mtime,
    {
        self.projects.clear();
    }

    /// Replaces the index with one reread from disk (dropping every
    /// loaded document), rejecting an index with duplicate project ids
    /// or duplicate settings keys as malformed.
    pub fn apply_reloaded_metadata(&mut self, metadata: Metadata, mtime: Option<u128>) -> (r:
        Result<(), String>)
        requires
            old(self).wf(),
        ensures
            final(self).wf(),
            r is Err ==> *final(self) == *old(self) && !(ids_unique(metadata.project_ids@)
                && keys_unique(metadata.global_settings@)),
            r is Ok ==> final(self).metadata == metadata && final(self).projects@.len() == 0
                && final(self).last_metadata_mtime == mtime && ids_unique(metadata.project_ids@)
                && keys_unique(metadata.global_settings@),
    {
        if !check_ids_unique(&metadata.project_ids) {
            return Err("malformed index: duplicate project ids".to_owned());
        }
        if !check_keys_unique(&metadata.global_settings) {
            return Err("malformed index: duplicate settings keys".to_owned());
        }
        self.metadata = metadata;
        self.projects.clear();
        self.last_metadata_mtime = mtime;
        Ok(())
    }

    /// Records the modification stamp of the index file after it was
    /// written or statted.
    pub fn note_metadata_mtime(&mut self, mtime: Option<u128>)
        requires
            old(self).wf(),
        ensures
            final(self).wf(),
            final(self).metadata == old(self).metadata,
            final(self).projects == old(self).projects,
            final(self).last_metadata_mtime == mtime,
    {
        self.last_metadata_mtime = mtime;
    }

    /// Whether the given current modification stamp of the index file
    /// differs from the last one this store observed: sync clients can
    /// move stamps forward or backward, so any difference signals an
    /// out-of-band change, as does the file appearing or disappearing.
    pub fn has_external_changes(&self, current_mtime: Option<u128>) -> (r: bool)
        ensures
            r == spec_external_change(self.last_metadata_mtime, current_mtime),
    {
        match (current_mtime, self.last_metadata_mtime) {
            (Some(c), Some(l)) => c != l,
            (Some(_), None) => true,
            (None, Some(_)) => true,
            (None, None) => false,
        }
    }

    /// A copy of the project-id list of the index, in index order.
    pub fn project_ids(&self) -> (r: Vec<String>)
        ensures
            r@ == self.metadata.project_ids@,
    {
        clone_strings(&self.metadata.project_ids)
    }
}


/// Whether some item in `items` has the given id.
pub open spec fn items_have(items: Seq<Item>, id: Seq<char>) -> bool {
    exists|k: int| 0 <= k < items.len() && items[k].id@ == id
}

/// Where the item with the given id stands.
pub open spec fn items_at(items: Seq<Item>, id: Seq<char>) -> int {
    choose|k: int| 0 <= k < items.len() && items[k].id@ == id
}

/// Whether the items have pairwise distinct ids.
pub open spec fn item_ids_unique(items: Seq<Item>) -> bool {
    forall|a: int, b: int| 0 <= a < b < items.len() ==> items[a].id@ != items[b].id@
}

/// An item found at position `k` is the one `items_at` names, because
/// ids are unique.
pub proof fn lemma_items_at_unique(items: Seq<Item>, id: Seq<char>, k: int)
    requires
        item_ids_unique(items),
        0 <= k < items.len(),
        items[k].id@ == id,
    ensures
        items_have(items, id),
        items_at(items, id) == k,
{
    assert(items_have(items, id));
    let w = items_at(items, id);
    if w < k {
        assert(items[w].id@ != items[k].id@);
    } else if w > k {
        assert(items[k].id@ != items[w].id@);
    }
}

/// Removing one item from a list with unique ids: ids stay unique, and
/// exactly the items differing from the removed one remain.
pub proof fn lemma_items_remove(s: Seq<Item>, k: int)
    requires
        item_ids_unique(s),
        0 <= k < s.len(),
    ensures
        item_ids_unique(s.remove(k)),
        forall|y: Item| #[trigger] s.remove(k).contains(y) <==> (s.contains(y) && y != s[k]),
{
    let rem = s.remove(k);
    assert forall|a: int, b: int| 0 <= a < b < rem.len() implies rem[a].id@ != rem[b].id@ by {
        let a0 = if a < k {
            a
        } else {
            a + 1
        };
        let b0 = if b < k {
            b
        } else {
            b + 1
        };
        assert(s[a0].id@ != s[b0].id@);
    };
    assert forall|y: Item| #[trigger] rem.contains(y) implies (s.contains(y) && y != s[k]) by {
        let w = choose|w: int| 0 <= w < rem.len() && rem[w] == y;
        let w0 = if w < k {
            w
        } else {
            w + 1
        };
        assert(s[w0] == y);
        if w0 < k {
            assert(s[w0].id@ != s[k].id@);
        } else {
            assert(s[k].id@ != s[w0].id@);
        }
    };
    assert forall|y: Item| (s.contains(y) && y != s[k]) implies #[trigger] rem.contains(y) by {
        let j = choose|j: int| 0 <= j < s.len() && s[j] == y;
        if j != k {
            let w = if j < k {
                j
            } else {
                j - 1
            };
            assert(rem[w] == y);
        }
    };
}

/// Whether `res` is `orig` renumbered to position `t` at time `now`:
/// the order is `t`, the update stamp is `now`, and every other field
/// is unchanged.
pub open spec fn item_renumbered(orig: Item, t: int, now: Seq<char>, res: Item) -> bool {
    &&& res.id == orig.id
    &&& res.project_id == orig.project_id
    &&& res.item_type == orig.item_type
    &&& res.title == orig.title
    &&& res.content == orig.content
    &&& res.ide_type == orig.ide_type
    &&& res.remote_ide_type == orig.remote_ide_type
    &&& res.coding_agent_type == orig.coding_agent_type
    &&& res.coding_agent_args == orig.coding_agent_args
    &&& res.coding_agent_env == orig.coding_agent_env
    &&& res.command_mode == orig.command_mode
    &&& res.command_cwd == orig.command_cwd
    &&& res.command_host == orig.command_host
    &&& res.order as int == t
    &&& res.created_at == orig.created_at
    &&& res.updated_at@ == now
}

/// Whether a reorder request covers a project exactly: the requested
/// ids are distinct, the project's item ids are distinct, the counts
/// agree, and every requested id names an item.
pub open spec fn reorder_covers_items(items: Seq<Item>, ids: Seq<String>) -> bool {
    &&& ids_unique(ids)
    &&& item_ids_unique(items)
    &&& ids.len() == items.len()
    &&& forall|t: int| 0 <= t < ids.len() ==> items_have(items, #[trigger] ids[t]@)
}

impl JsonStore {
    /// Renormalizes the order of a project's items: the item named by
    /// position `t` of `item_ids` takes order `t` and a fresh update
    /// stamp, named items come first in the requested order, unnamed
    /// items keep their fields and follow, and the project itself is
    /// freshly stamped.  When the request lists exactly the project's
    /// items, the result is the requested permutation with dense
    /// orders 0, 1, 2, ...
    #[verifier::rlimit(50)]
    pub fn reorder_items_at(&mut self, project_id: &str, item_ids: &Vec<String>, now: &str) -> (r:
        Result<(), String>)
        requires
            old(self).wf(),
            item_ids@.len() <= i32::MAX as int,
        ensures
            final(self).wf(),
            r is Ok <==> old(self).has_doc(project_id@),
            r is Err ==> *final(self) == *old(self),
            r is Ok ==> ({
                let i = old(self).doc_at(project_id@);
                let p0 = old(self).projects@[i];
                let p1 = final(self).projects@[i];
                &&& final(self).metadata == old(self).metadata
                &&& final(self).last_metadata_mtime == old(self).last_metadata_mtime
                &&& final(self).projects@.len() == old(self).projects@.len()
                &&& (forall|k: int|
                    0 <= k < old(self).projects@.len() && k != i ==> final(self).projects@[k]
                        == old(self).projects@[k])
                &&& p1.id == p0.id
                &&& p1.name == p0.name
                &&& p1.description == p0.description
                &&& p1.metadata == p0.metadata
                &&& p1.todos == p0.todos
                &&& p1.file_cards == p0.file_cards
                &&& p1.created_at == p0.created_at
                &&& p1.updated_at@ == now@
                &&& p1.items@.len() == p0.items@.len()
                &&& (reorder_covers_items(p0.items@, item_ids@) ==> forall|t: int|
                    0 <= t < item_ids@.len() ==> item_renumbered(
                        p0.items@[items_at(p0.items@, #[trigger] item_ids@[t]@)],
                        t,
                        now@,
                        p1.items@[t],
                    ))
            }),
    {
        let found = self.find_doc(project_id);
        match found {
            None => Err("project not found".to_owned()),
            Some(i) => {
                proof {
                    lemma_docs_at_unique(self.projects@, project_id@, i as int);
                }
                let ghost p0 = self.projects@[i as int];
                let ghost gc = reorder_covers_items(p0.items@, item_ids@);
                let mut remaining = clone_items(&self.projects[i].items);
                let mut new_items: Vec<Item> = Vec::new();
                let mut t: usize = 0;
                proof {
                    assert(item_ids@.take(0) =~= Seq::<String>::empty());
                }
                while t < item_ids.len()
                    invariant
                        t <= item_ids@.len(),
                        item_ids@.len() <= i32::MAX as int,
                        new_items@.len() + remaining@.len() == p0.items@.len(),
                        new_items@.len() <= t,
                        forall|k: int|
                            0 <= k < remaining@.len() ==> remaining@[k].project_id@ == p0.id@,
                        forall|k: int|
                            0 <= k < new_items@.len() ==> new_items@[k].project_id@ == p0.id@,
                        gc == reorder_covers_items(p0.items@, item_ids@),
                        gc ==> item_ids_unique(remaining@),
                        gc ==> (forall|y: Item|
                            #[trigger] remaining@.contains(y) <==> (p0.items@.contains(y)
                                && !ids_has(item_ids@.take(t as int), y.id@))),
                        gc ==> new_items@.len() == t,
                        gc ==> (forall|t2: int|
                            0 <= t2 < t as int ==> item_renumbered(
                                p0.items@[items_at(p0.items@, #[trigger] item_ids@[t2]@)],
                                t2,
                                now@,
                                new_items@[t2],
                            )),
                    decreases item_ids@.len() - t,
                {
                    let ghost rem0 = remaining@;
                    proof {
                        if gc {
                            let w = items_at(p0.items@, item_ids@[t as int]@);
                            assert(items_have(p0.items@, item_ids@[t as int]@));
                            assert(0 <= w < p0.items@.len() && p0.items@[w].id@ == item_ids@[
                            t as int]@);
                            assert(p0.items@.contains(p0.items@[w]));
                            assert forall|t2: int| 0 <= t2 < t as int implies item_ids@[t2]@
                                != item_ids@[t as int]@ by {
                                assert(item_ids@[t2]@ != item_ids@[t as int]@);
                            };
                            if ids_has(item_ids@.take(t as int), p0.items@[w].id@) {
                                let q = choose|q: int|
                                    0 <= q < t as int && item_ids@.take(t as int)[q]@
                                        == p0.items@[w].id@;
                                assert(item_ids@[q]@ == item_ids@[t as int]@);
                            }
                            assert(remaining@.contains(p0.items@[w]));
                        }
                    }
                    let found_k = find_item_in(&remaining, item_ids[t].as_str());
                    if let Some(k) = found_k {
                        let mut it = remaining.remove(k);
                        it.order = t as i32;
                        it.updated_at = now.to_owned();
                        new_items.push(it);
                        proof {
                            if gc {
                                lemma_items_remove(rem0, k as int);
                                assert(rem0.contains(rem0[k as int]));
                                assert(p0.items@.contains(rem0[k as int]));
                                let j = choose|j: int|
                                    0 <= j < p0.items@.len() && p0.items@[j] == rem0[k as int];
                                lemma_items_at_unique(p0.items@, item_ids@[t as int]@, j);
                                assert(item_renumbered(
                                    p0.items@[items_at(p0.items@, item_ids@[t as int]@)],
                                    t as int,
                                    now@,
                                    new_items@.last(),
                                ));
                            }
                        }
                    }
                    proof {
                        if gc {
                            assert(item_ids@.take(t as int + 1) =~= item_ids@.take(
                                t as int,
                            ).push(item_ids@[t as int]));
                            lemma_ids_push(item_ids@.take(t as int), item_ids@[t as int]);
                            assert forall|y: Item| #[trigger] remaining@.contains(y) implies (
                            p0.items@.contains(y) && !ids_has(
                                item_ids@.take(t as int + 1),
                                y.id@,
                            )) by {
                                assert(rem0.contains(y));
                                if y.id@ == item_ids@[t as int]@ {
                                    let w = items_at(p0.items@, item_ids@[t as int]@);
                                    let j = choose|j: int|
                                        0 <= j < p0.items@.len() && p0.items@[j] == y;
                                    lemma_items_at_unique(p0.items@, item_ids@[t as int]@, j);
                                    assert(y == p0.items@[w]);
                                    assert(false);
                                }
                            };
                            assert forall|y: Item| (p0.items@.contains(y) && !ids_has(
                                item_ids@.take(t as int + 1),
                                y.id@,
                            )) implies #[trigger] remaining@.contains(y) by {
                                assert(rem0.contains(y));
                            };
                        }
                    }
                    t = t + 1;
                }
                let mut pd = self.projects.remove(i);
                proof {
                    if gc {
                        assert(remaining@.len() == 0);
                    }
                }
                while remaining.len() > 0
                    invariant
                        new_items@.len() + remaining@.len() == p0.items@.len(),
                        forall|k: int|
                            0 <= k < remaining@.len() ==> remaining@[k].project_id@ == p0.id@,
                        forall|k: int|
                            0 <= k < new_items@.len() ==> new_items@[k].project_id@ == p0.id@,
                        gc ==> remaining@.len() == 0,
                        gc ==> (forall|t2: int|
                            0 <= t2 < item_ids@.len() ==> item_renumbered(
                                p0.items@[items_at(p0.items@, #[trigger] item_ids@[t2]@)],
                                t2,
                                now@,
                                new_items@[t2],
                            )),
                        gc == reorder_covers_items(p0.items@, item_ids@),
                    decreases remaining@.len(),
                {
                    let it = remaining.remove(0);
                    new_items.push(it);
                }
                pd.items = new_items;
                pd.updated_at = now.to_owned();
                self.projects.insert(i, pd);
                proof {
                    assert(self.projects@ =~= old(self).projects@.update(
                        i as int,
                        self.projects@[i as int],
                    ));
                    lemma_wf_doc_update(*old(self), *self, i as int);
                }
                Ok(())
            },
        }
    }
}


/// Whether some todo in `todos` has the given id.
pub open spec fn todos_have(todos: Seq<TodoItem>, id: Seq<char>) -> bool {
    exists|k: int| 0 <= k < todos.len() && todos[k].id@ == id
}

/// Where the todo with the given id stands.
pub open spec fn todos_at(todos: Seq<TodoItem>, id: Seq<char>) -> int {
    choose|k: int| 0 <= k < todos.len() && todos[k].id@ == id
}

/// Whether the todos have pairwise distinct ids.
pub open spec fn todo_ids_unique(todos: Seq<TodoItem>) -> bool {
    forall|a: int, b: int| 0 <= a < b < todos.len() ==> todos[a].id@ != todos[b].id@
}

/// A todo found at position `k` is the one `todos_at` names, because
/// ids are unique.
pub proof fn lemma_todos_at_unique(todos: Seq<TodoItem>, id: Seq<char>, k: int)
    requires
        todo_ids_unique(todos),
        0 <= k < todos.len(),
        todos[k].id@ == id,
    ensures
        todos_have(todos, id),
        todos_at(todos, id) == k,
{
    assert(todos_have(todos, id));
    let w = todos_at(todos, id);
    if w < k {
        assert(todos[w].id@ != todos[k].id@);
    } else if w > k {
        assert(todos[k].id@ != todos[w].id@);
    }
}

/// Removing one todo from a list with unique ids: ids stay unique, and
/// exactly the todos differing from the removed one remain.
pub proof fn lemma_todos_remove(s: Seq<TodoItem>, k: int)
    requires
        todo_ids_unique(s),
        0 <= k < s.len(),
    ensures
        todo_ids_unique(s.remove(k)),
        forall|y: TodoItem| #[trigger] s.remove(k).contains(y) <==> (s.contains(y) && y != s[k]),
{
    let rem = s.remove(k);
    assert forall|a: int, b: int| 0 <= a < b < rem.len() implies rem[a].id@ != rem[b].id@ by {
        let a0 = if a < k {
            a
        } else {
            a + 1
        };
        let b0 = if b < k {
            b
        } else {
            b + 1
        };
        assert(s[a0].id@ != s[b0].id@);
    };
    assert forall|y: TodoItem| #[trigger] rem.contains(y) implies (s.contains(y) && y != s[k]) by {
        let w = choose|w: int| 0 <= w < rem.len() && rem[w] == y;
        let w0 = if w < k {
            w
        } else {
            w + 1
        };
        assert(s[w0] == y);
        if w0 < k {
            assert(s[w0].id@ != s[k].id@);
        } else {
            assert(s[k].id@ != s[w0].id@);
        }
    };
    assert forall|y: TodoItem| (s.contains(y) && y != s[k]) implies #[trigger] rem.contains(y) by {
        let j = choose|j: int| 0 <= j < s.len() && s[j] == y;
        if j != k {
            let w = if j < k {
                j
            } else {
                j - 1
            };
            assert(rem[w] == y);
        }
    };
}

/// Whether `res` is `orig` renumbered to position `t` at time `now`.
pub open spec fn todo_renumbered(orig: TodoItem, t: int, now: Seq<char>, res: TodoItem) -> bool {
    &&& res.id == orig.id
    &&& res.project_id == orig.project_id
    &&& res.content == orig.content
    &&& res.completed == orig.completed
    &&& res.order as int == t
    &&& res.indent_level == orig.indent_level
    &&& res.created_at == orig.created_at
    &&& res.updated_at@ == now
    &&& res.completed_at == orig.completed_at
}

/// Whether a reorder request covers a project's todos exactly.
pub open spec fn reorder_covers_todos(todos: Seq<TodoItem>, ids: Seq<String>) -> bool {
    &&& ids_unique(ids)
    &&& todo_ids_unique(todos)
    &&& ids.len() == todos.len()
    &&& forall|t: int| 0 <= t < ids.len() ==> todos_have(todos, #[trigger] ids[t]@)
}

impl JsonStore {
    /// Renormalizes the order of a project's todos, exactly as
    /// `reorder_items_at` does for items.
    #[verifier::rlimit(50)]
    pub fn reorder_todos_at(&mut self, project_id: &str, todo_ids: &Vec<String>, now: &str) -> (r:
        Result<(), String>)
        requires
            old(self).wf(),
            todo_ids@.len() <= i32::MAX as int,
        ensures
            final(self).wf(),
            r is Ok <==> old(self).has_doc(project_id@),
            r is Err ==> *final(self) == *old(self),
            r is Ok ==> ({
                let i = old(self).doc_at(project_id@);
                let p0 = old(self).projects@[i];
                let p1 = final(self).projects@[i];
                &&& final(self).metadata == old(self).metadata
                &&& final(self).last_metadata_mtime == old(self).last_metadata_mtime
                &&& final(self).projects@.len() == old(self).projects@.len()
                &&& (forall|k: int|
                    0 <= k < old(self).projects@.len() && k != i ==> final(self).projects@[k]
                        == old(self).projects@[k])
                &&& p1.id == p0.id
                &&& p1.name == p0.name
                &&& p1.description == p0.description
                &&& p1.metadata == p0.metadata
                &&& p1.items == p0.items
                &&& p1.file_cards == p0.file_cards
                &&& p1.created_at == p0.created_at
                &&& p1.updated_at@ == now@
                &&& p1.todos@.len() == p0.todos@.len()
                &&& (reorder_covers_todos(p0.todos@, todo_ids@) ==> forall|t: int|
                    0 <= t < todo_ids@.len() ==> todo_renumbered(
                        p0.todos@[todos_at(p0.todos@, #[trigger] todo_ids@[t]@)],
                        t,
                        now@,
                        p1.todos@[t],
                    ))
            }),
    {
        let found = self.find_doc(project_id);
        match found {
            None => Err("project not found".to_owned()),
            Some(i) => {
                proof {
                    lemma_docs_at_unique(self.projects@, project_id@, i as int);
                }
                let ghost p0 = self.projects@[i as int];
                let ghost gc = reorder_covers_todos(p0.todos@, todo_ids@);
                let mut remaining = clone_todos(&self.projects[i].todos);
                let mut new_todos: Vec<TodoItem> = Vec::new();
                let mut t: usize = 0;
                proof {
                    assert(todo_ids@.take(0) =~= Seq::<String>::empty());
                }
                while t < todo_ids.len()
                    invariant
                        t <= todo_ids@.len(),
                        todo_ids@.len() <= i32::MAX as int,
                        new_todos@.len() + remaining@.len() == p0.todos@.len(),
                        new_todos@.len() <= t,
                        forall|k: int|
                            0 <= k < remaining@.len() ==> remaining@[k].project_id@ == p0.id@,
                        forall|k: int|
                            0 <= k < new_todos@.len() ==> new_todos@[k].project_id@ == p0.id@,
                        gc == reorder_covers_todos(p0.todos@, todo_ids@),
                        gc ==> todo_ids_unique(remaining@),
                        gc ==> (forall|y: TodoItem|
                            #[trigger] remaining@.contains(y) <==> (p0.todos@.contains(y)
                                && !ids_has(todo_ids@.take(t as int), y.id@))),
                        gc ==> new_todos@.len() == t,
                        gc ==> (forall|t2: int|
                            0 <= t2 < t as int ==> todo_renumbered(
                                p0.todos@[todos_at(p0.todos@, #[trigger] todo_ids@[t2]@)],
                                t2,
                                now@,
                                new_todos@[t2],
                            )),
                    decreases todo_ids@.len() - t,
                {
                    let ghost rem0 = remaining@;
                    proof {
                        if gc {
                            let w = todos_at(p0.todos@, todo_ids@[t as int]@);
                            assert(todos_have(p0.todos@, todo_ids@[t as int]@));
                            assert(0 <= w < p0.todos@.len() && p0.todos@[w].id@ == todo_ids@[
                            t as int]@);
                            assert(p0.todos@.contains(p0.todos@[w]));
                            if ids_has(todo_ids@.take(t as int), p0.todos@[w].id@) {
                                let q = choose|q: int|
                                    0 <= q < t as int && todo_ids@.take(t as int)[q]@
                                        == p0.todos@[w].id@;
                                assert(todo_ids@[q]@ == todo_ids@[t as int]@);
                            }
                            assert(remaining@.contains(p0.todos@[w]));
                        }
                    }
                    let found_k = find_todo_in(&remaining, todo_ids[t].as_str());
                    if let Some(k) = found_k {
                        let mut td = remaining.remove(k);
                        td.order = t as i32;
                        td.updated_at = now.to_owned();
                        new_todos.push(td);
                        proof {
                            if gc {
                                lemma_todos_remove(rem0, k as int);
                                assert(rem0.contains(rem0[k as int]));
                                assert(p0.todos@.contains(rem0[k as int]));
                                let j = choose|j: int|
                                    0 <= j < p0.todos@.len() && p0.todos@[j] == rem0[k as int];
                                lemma_todos_at_unique(p0.todos@, todo_ids@[t as int]@, j);
                                assert(todo_renumbered(
                                    p0.todos@[todos_at(p0.todos@, todo_ids@[t as int]@)],
                                    t as int,
                                    now@,
                                    new_todos@.last(),
                                ));
                            }
                        }
                    }
                    proof {
                        if gc {
                            assert(todo_ids@.take(t as int + 1) =~= todo_ids@.take(
                                t as int,
                            ).push(todo_ids@[t as int]));
                            lemma_ids_push(todo_ids@.take(t as int), todo_ids@[t as int]);
                            assert forall|y: TodoItem| #[trigger] remaining@.contains(y) implies (
                            p0.todos@.contains(y) && !ids_has(
                                todo_ids@.take(t as int + 1),
                                y.id@,
                            )) by {
                                assert(rem0.contains(y));
                                if y.id@ == todo_ids@[t as int]@ {
                                    let w = todos_at(p0.todos@, todo_ids@[t as int]@);
                                    let j = choose|j: int|
                                        0 <= j < p0.todos@.len() && p0.todos@[j] == y;
                                    lemma_todos_at_unique(p0.todos@, todo_ids@[t as int]@, j);
                                    assert(y == p0.todos@[w]);
                                    assert(false);
                                }
                            };
                            assert forall|y: TodoItem| (p0.todos@.contains(y) && !ids_has(
                                todo_ids@.take(t as int + 1),
                                y.id@,
                            )) implies #[trigger] remaining@.contains(y) by {
                                assert(rem0.contains(y));
                            };
                        }
                    }
                    t = t + 1;
                }
                let mut pd = self.projects.remove(i);
                proof {
                    if gc {
                        assert(remaining@.len() == 0);
                    }
                }
                while remaining.len() > 0
                    invariant
                        new_todos@.len() + remaining@.len() == p0.todos@.len(),
                        forall|k: int|
                            0 <= k < remaining@.len() ==> remaining@[k].project_id@ == p0.id@,
                        forall|k: int|
                            0 <= k < new_todos@.len() ==> new_todos@[k].project_id@ == p0.id@,
                        gc ==> remaining@.len() == 0,
                        gc ==> (forall|t2: int|
                            0 <= t2 < todo_ids@.len() ==> todo_renumbered(
                                p0.todos@[todos_at(p0.todos@, #[trigger] todo_ids@[t2]@)],
                                t2,
                                now@,
                                new_todos@[t2],
                            )),
                        gc == reorder_covers_todos(p0.todos@, todo_ids@),
                    decreases remaining@.len(),
                {
                    let td = remaining.remove(0);
                    new_todos.push(td);
                }
                pd.todos = new_todos;
                pd.updated_at = now.to_owned();
                self.projects.insert(i, pd);
                proof {
                    assert(self.projects@ =~= old(self).projects@.update(
                        i as int,
                        self.projects@[i as int],
                    ));
                    lemma_wf_doc_update(*old(self), *self, i as int);
                }
                Ok(())
            },
        }
    }
}


/// Whether `row` is the flattened wire form of the project record of
/// document `d`.
pub open spec fn row_of(row: ProjectRow, d: ProjectData) -> bool {
    &&& row.id == d.id
    &&& row.name == d.name
    &&& row.description == d.description
    &&& row.metadata.mdv() == d.metadata.mdv()
    &&& row.created_at == d.created_at
    &&& row.updated_at == d.updated_at
}

/// Whether `cr` is the flattened wire form of file card `fc`: the
/// boolean flags become 1 or 0.
pub open spec fn card_row_of(cr: FileCardRow, fc: FileCard) -> bool {
    &&& cr.id == fc.id
    &&& cr.project_id == fc.project_id
    &&& cr.filename == fc.filename
    &&& cr.file_path == fc.file_path
    &&& cr.position_x == fc.position_x
    &&& cr.position_y == fc.position_y
    &&& cr.is_expanded == if fc.is_expanded {
        1int
    } else {
        0int
    }
    &&& cr.is_minimized == if fc.is_minimized {
        1int
    } else {
        0int
    }
    &&& cr.z_index == fc.z_index
    &&& cr.created_at == fc.created_at
    &&& cr.updated_at == fc.updated_at
}

/// The items of the first `n` documents, in document order.
pub open spec fn concat_items(ps: Seq<ProjectData>, n: int) -> Seq<Item>
    decreases n,
{
    if n <= 0 {
        Seq::empty()
    } else {
        concat_items(ps, n - 1) + ps[n - 1].items@
    }
}

/// The file cards of the first `n` documents, in document order.
pub open spec fn concat_cards(ps: Seq<ProjectData>, n: int) -> Seq<FileCard>
    decreases n,
{
    if n <= 0 {
        Seq::empty()
    } else {
        concat_cards(ps, n - 1) + ps[n - 1].file_cards@
    }
}

/// Appends clones of all items of `src` to `dst`.
pub fn append_item_clones(dst: &mut Vec<Item>, src: &Vec<Item>)
    ensures
        final(dst)@ == old(dst)@ + src@,
{
    let mut k: usize = 0;
    proof {
        assert(dst@ =~= old(dst)@ + src@.take(0));
    }
    while k < src.len()
        invariant
            k <= src@.len(),
            dst@ == old(dst)@ + src@.take(k as int),
        decreases src@.len() - k,
    {
        dst.push(src[k].clone());
        proof {
            assert(old(dst)@ + src@.take(k as int + 1) =~= (old(dst)@ + src@.take(k as int)).push(
                src@[k as int],
            ));
        }
        k = k + 1;
    }
    proof {
        assert(src@.take(src@.len() as int) =~= src@);
    }
}

/// Appends the wire forms of all file cards of `src` to `dst`.
pub fn append_card_rows(dst: &mut Vec<FileCardRow>, src: &Vec<FileCard>)
    ensures
        final(dst)@.len() == old(dst)@.len() + src@.len(),
        forall|k: int| 0 <= k < old(dst)@.len() ==> final(dst)@[k] == old(dst)@[k],
        forall|k: int|
            0 <= k < src@.len() ==> card_row_of(
                final(dst)@[old(dst)@.len() + k],
                #[trigger] src@[k],
            ),
{
    let mut k: usize = 0;
    while k < src.len()
        invariant
            k <= src@.len(),
            dst@.len() == old(dst)@.len() + k as int,
            forall|j: int| 0 <= j < old(dst)@.len() ==> dst@[j] == old(dst)@[j],
            forall|j: int|
                0 <= j < k as int ==> card_row_of(
                    dst@[old(dst)@.len() + j],
                    #[trigger] src@[j],
                ),
        decreases src@.len() - k,
    {
        let c = &src[k];
        dst.push(
            FileCardRow {
                id: c.id.clone(),
                project_id: c.project_id.clone(),
                filename: c.filename.clone(),
                file_path: c.file_path.clone(),
                position_x: c.position_x,
                position_y: c.position_y,
                is_expanded: if c.is_expanded {
                    1
                } else {
                    0
                },
                is_minimized: if c.is_minimized {
                    1
                } else {
                    0
                },
                z_index: c.z_index,
                created_at: c.created_at.clone(),
                updated_at: c.updated_at.clone(),
            },
        );
        k = k + 1;
    }
}


/// The loaded documents named by the first `n` requested ids, in
/// request order; unknown ids contribute nothing and a repeated id
/// contributes each time it is named.
pub open spec fn selected_docs(ps: Seq<ProjectData>, ids: Seq<String>, n: int) -> Seq<ProjectData>
    decreases n,
{
    if n <= 0 {
        Seq::empty()
    } else {
        let prev = selected_docs(ps, ids, n - 1);
        if docs_have(ps, ids[n - 1]@) {
            prev.push(ps[docs_at(ps, ids[n - 1]@)])
        } else {
            prev
        }
    }
}

/// `concat_items` reads only the first `n` documents.
proof fn lemma_concat_items_prefix(s1: Seq<ProjectData>, s2: Seq<ProjectData>, n: int)
    requires
        0 <= n <= s1.len(),
        n <= s2.len(),
        forall|k: int| 0 <= k < n ==> s1[k] == s2[k],
    ensures
        concat_items(s1, n) == concat_items(s2, n),
    decreases n,
{
    if n > 0 {
        lemma_concat_items_prefix(s1, s2, n - 1);
    }
}

/// `concat_cards` reads only the first `n` documents.
proof fn lemma_concat_cards_prefix(s1: Seq<ProjectData>, s2: Seq<ProjectData>, n: int)
    requires
        0 <= n <= s1.len(),
        n <= s2.len(),
        forall|k: int| 0 <= k < n ==> s1[k] == s2[k],
    ensures
        concat_cards(s1, n) == concat_cards(s2, n),
    decreases n,
{
    if n > 0 {
        lemma_concat_cards_prefix(s1, s2, n - 1);
    }
}

impl JsonStore {
    /// Exports data as a wire envelope stamped with the given time.
    ///
    /// With no selection every loaded document is exported, in load
    /// order; with a selection, the named projects that are loaded are
    /// exported in the order requested and unknown ids are ignored.
    /// Rows carry the project records; the envelope's item list and
    /// card list are the concatenations of the exported documents'
    /// children, cards in wire form.
    pub fn export_all_data_at(&self, selection: Option<&Vec<String>>, now: &str) -> (r: Result<
        ExportData,
        String,
    >)
        requires
            self.wf(),
        ensures
            r matches Ok(e) && ({
                &&& e.version@ == "1.0"@
                &&& e.exported_at@ == now@
                &&& (selection is None ==> {
                    &&& e.projects@.len() == self.projects@.len()
                    &&& (forall|t: int|
                        0 <= t < self.projects@.len() ==> row_of(
                            e.projects@[t],
                            #[trigger] self.projects@[t],
                        ))
                    &&& e.items@ == concat_items(self.projects@, self.projects@.len() as int)
                    &&& (e.file_cards matches Some(cv) && cv@.len() == concat_cards(
                        self.projects@,
                        self.projects@.len() as int,
                    ).len() && (forall|k: int|
                        0 <= k < cv@.len() ==> card_row_of(
                            #[trigger] cv@[k],
                            concat_cards(self.projects@, self.projects@.len() as int)[k],
                        )))
                })
                &&& (selection matches Some(ids) ==> ({
                    let sel = selected_docs(self.projects@, ids@, ids@.len() as int);
                    &&& e.projects@.len() == sel.len()
                    &&& (forall|t: int|
                        0 <= t < sel.len() ==> row_of(e.projects@[t], #[trigger] sel[t]))
                    &&& e.items@ == concat_items(sel, sel.len() as int)
                    &&& (e.file_cards matches Some(cv) && cv@.len() == concat_cards(
                        sel,
                        sel.len() as int,
                    ).len() && (forall|k: int|
                        0 <= k < cv@.len() ==> card_row_of(
                            #[trigger] cv@[k],
                            concat_cards(sel, sel.len() as int)[k],
                        )))
                    &&& (forall|u: int|
                        0 <= u < ids@.len() && self.has_doc(#[trigger] ids@[u]@) ==> rows_have(
                            e.projects@,
                            ids@[u]@,
                        ))
                }))
            }),
    {
        let mut rows: Vec<ProjectRow> = Vec::new();
        let mut items: Vec<Item> = Vec::new();
        let mut cards: Vec<FileCardRow> = Vec::new();
        match selection {
            None => {
                let mut i: usize = 0;
                while i < self.projects.len()
                    invariant
                        i <= self.projects@.len(),
                        rows@.len() == i as int,
                        forall|t: int|
                            0 <= t < i as int ==> row_of(rows@[t], #[trigger] self.projects@[t]),
                        items@ == concat_items(self.projects@, i as int),
                        cards@.len() == concat_cards(self.projects@, i as int).len(),
                        forall|k: int|
                            0 <= k < cards@.len() ==> card_row_of(
                                #[trigger] cards@[k],
                                concat_cards(self.projects@, i as int)[k],
                            ),
                    decreases self.projects@.len() - i,
                {
                    let d = &self.projects[i];
                    rows.push(
                        ProjectRow {
                            id: d.id.clone(),
                            name: d.name.clone(),
                            description: d.description.clone(),
                            metadata: d.metadata.clone(),
                            created_at: d.created_at.clone(),
                            updated_at: d.updated_at.clone(),
                        },
                    );
                    append_item_clones(&mut items, &d.items);
                    let ghost cards0 = cards@;
                    append_card_rows(&mut cards, &d.file_cards);
                    proof {
                        assert(concat_items(self.projects@, i as int + 1) == concat_items(
                            self.projects@,
                            i as int,
                        ) + self.projects@[i as int].items@);
                        let cc1 = concat_cards(self.projects@, i as int + 1);
                        let cc0 = concat_cards(self.projects@, i as int);
                        assert(cc1 == cc0 + self.projects@[i as int].file_cards@);
                        assert forall|k: int| 0 <= k < cards@.len() implies card_row_of(
                            #[trigger] cards@[k],
                            cc1[k],
                        ) by {
                            if k < cards0.len() {
                                assert(cards@[k] == cards0[k]);
                                assert(cc1[k] == cc0[k]);
                            } else {
                                let j = k - cards0.len();
                                assert(cc1[k] == self.projects@[i as int].file_cards@[j]);
                                assert(card_row_of(
                                    cards@[cards0.len() + j],
                                    self.projects@[i as int].file_cards@[j],
                                ));
                            }
                        };
                    }
                    i = i + 1;
                }
            },
            Some(ids) => {
                let ghost ps = self.projects@;
                let mut u: usize = 0;
                proof {
                    assert(selected_docs(ps, ids@, 0) =~= Seq::<ProjectData>::empty());
                }
                while u < ids.len()
                    invariant
                        self.wf(),
                        u <= ids@.len(),
                        ps == self.projects@,
                        rows@.len() == selected_docs(ps, ids@, u as int).len(),
                        forall|t: int|
                            0 <= t < rows@.len() ==> row_of(
                                rows@[t],
                                #[trigger] selected_docs(ps, ids@, u as int)[t],
                            ),
                        items@ == concat_items(
                            selected_docs(ps, ids@, u as int),
                            selected_docs(ps, ids@, u as int).len() as int,
                        ),
                        cards@.len() == concat_cards(
                            selected_docs(ps, ids@, u as int),
                            selected_docs(ps, ids@, u as int).len() as int,
                        ).len(),
                        forall|k: int|
                            0 <= k < cards@.len() ==> card_row_of(
                                #[trigger] cards@[k],
                                concat_cards(
                                    selected_docs(ps, ids@, u as int),
                                    selected_docs(ps, ids@, u as int).len() as int,
                                )[k],
                            ),
                        forall|u2: int|
                            0 <= u2 < u as int && self.has_doc(#[trigger] ids@[u2]@) ==> rows_have(
                                rows@,
                                ids@[u2]@,
                            ),
                    decreases ids@.len() - u,
                {
                    let ghost sel0 = selected_docs(ps, ids@, u as int);
                    let ghost rows0 = rows@;
                    let ghost cards0 = cards@;
                    let found = self.find_doc(ids[u].as_str());
                    if let Some(i) = found {
                        proof {
                            lemma_docs_at_unique(ps, ids@[u as int]@, i as int);
                        }
                        let d = &self.projects[i];
                        rows.push(
                            ProjectRow {
                                id: d.id.clone(),
                                name: d.name.clone(),
                                description: d.description.clone(),
                                metadata: d.metadata.clone(),
                                created_at: d.created_at.clone(),
                                updated_at: d.updated_at.clone(),
                            },
                        );
                        append_item_clones(&mut items, &d.items);
                        append_card_rows(&mut cards, &d.file_cards);
                        proof {
                            let sel1 = selected_docs(ps, ids@, u as int + 1);
                            assert(docs_have(ps, ids@[u as int]@));
                            assert(sel1 == sel0.push(ps[i as int]));
                            assert(row_of(rows@.last(), ps[i as int]));
                            assert forall|t: int| 0 <= t < rows@.len() implies row_of(
                                rows@[t],
                                #[trigger] sel1[t],
                            ) by {
                                if t < rows@.len() - 1 {
                                    assert(rows@[t] == rows0[t]);
                                    assert(sel1[t] == sel0[t]);
                                    assert(row_of(rows0[t], sel0[t]));
                                } else {
                                    assert(sel1[t] == ps[i as int]);
                                }
                            };
                            lemma_concat_items_prefix(sel1, sel0, sel0.len() as int);
                            assert(concat_items(sel1, sel1.len() as int) == concat_items(
                                sel0,
                                sel0.len() as int,
                            ) + ps[i as int].items@);
                            lemma_concat_cards_prefix(sel1, sel0, sel0.len() as int);
                            let cc0 = concat_cards(sel0, sel0.len() as int);
                            let cc1 = concat_cards(sel1, sel1.len() as int);
                            assert(cc1 == cc0 + ps[i as int].file_cards@);
                            assert forall|k: int| 0 <= k < cards@.len() implies card_row_of(
                                #[trigger] cards@[k],
                                cc1[k],
                            ) by {
                                if k < cards0.len() {
                                    assert(cards@[k] == cards0[k]);
                                    assert(cc1[k] == cc0[k]);
                                    assert(card_row_of(cards0[k], cc0[k]));
                                } else {
                                    let j = k - cards0.len();
                                    assert(cc1[k] == ps[i as int].file_cards@[j]);
                                    assert(card_row_of(
                                        cards@[cards0.len() + j],
                                        ps[i as int].file_cards@[j],
                                    ));
                                }
                            };
                            assert forall|u2: int|
                                0 <= u2 <= u as int && self.has_doc(
                                    #[trigger] ids@[u2]@,
                                ) implies rows_have(rows@, ids@[u2]@) by {
                                if u2 < u as int {
                                    assert(rows_have(rows0, ids@[u2]@));
                                    let t = choose|t: int|
                                        0 <= t < rows0.len() && rows0[t].id@ == ids@[u2]@;
                                    assert(rows@[t].id@ == ids@[u2]@);
                                } else {
                                    assert(rows@[rows@.len() - 1].id@ == ids@[u as int]@);
                                }
                            };
                        }
                    } else {
                        proof {
                            assert(!docs_have(ps, ids@[u as int]@));
                            assert(selected_docs(ps, ids@, u as int + 1) == sel0);
                            assert forall|u2: int|
                                0 <= u2 <= u as int && self.has_doc(
                                    #[trigger] ids@[u2]@,
                                ) implies rows_have(rows@, ids@[u2]@) by {
                                assert(u2 < u as int);
                                assert(rows_have(rows0, ids@[u2]@));
                            };
                        }
                    }
                    u = u + 1;
                }
                proof {
                    let sel = selected_docs(self.projects@, ids@, ids@.len() as int);
                    assert(selected_docs(ps, ids@, u as int) == sel);
                    assert forall|t: int| 0 <= t < rows@.len() implies row_of(
                        rows@[t],
                        #[trigger] sel[t],
                    ) by {
                        assert(row_of(rows@[t], selected_docs(ps, ids@, u as int)[t]));
                    };
                    assert forall|k: int| 0 <= k < cards@.len() implies card_row_of(
                        #[trigger] cards@[k],
                        concat_cards(sel, sel.len() as int)[k],
                    ) by {
                        assert(card_row_of(
                            cards@[k],
                            concat_cards(
                                selected_docs(ps, ids@, u as int),
                                selected_docs(ps, ids@, u as int).len() as int,
                            )[k],
                        ));
                    };
                }
            },
        }
        Ok(
            ExportData {
                version: "1.0".to_owned(),
                exported_at: now.to_owned(),
                projects: rows,
                items,
                file_cards: Some(cards),
            },
        )
    }
}



/// The card list of an envelope; an absent list counts as empty.
pub open spec fn data_cards(data: ImportData) -> Seq<FileCardRow> {
    match data.file_cards {
        Some(v) => v@,
        None => Seq::empty(),
    }
}

/// Whether some row in `rows` has the given project id.
pub open spec fn rows_have(rows: Seq<ProjectRow>, id: Seq<char>) -> bool {
    exists|t: int| 0 <= t < rows.len() && rows[t].id@ == id
}

/// Whether the rows have pairwise distinct ids.
pub open spec fn row_ids_unique(rows: Seq<ProjectRow>) -> bool {
    forall|a: int, b: int| 0 <= a < b < rows.len() ==> rows[a].id@ != rows[b].id@
}

/// Whether the card rows have pairwise distinct ids.
pub open spec fn card_row_ids_unique(cards: Seq<FileCardRow>) -> bool {
    forall|a: int, b: int| 0 <= a < b < cards.len() ==> cards[a].id@ != cards[b].id@
}

/// Whether an envelope carries no id twice: row ids, item ids and card
/// ids are each duplicate-free.  Every envelope exported from a store
/// whose ids were freshly assigned at creation is of this shape.
pub open spec fn clean_envelope(data: ImportData) -> bool {
    &&& row_ids_unique(data.projects@)
    &&& item_ids_unique(data.items@)
    &&& card_row_ids_unique(data_cards(data))
}

/// The items among the first `n` of `items` that belong to project
/// `pid`, in order.
pub open spec fn items_for(items: Seq<Item>, pid: Seq<char>, n: int) -> Seq<Item>
    decreases n,
{
    if n <= 0 {
        Seq::empty()
    } else if items[n - 1].project_id@ == pid {
        items_for(items, pid, n - 1).push(items[n - 1])
    } else {
        items_for(items, pid, n - 1)
    }
}

/// The card rows among the first `n` of `cards` that belong to project
/// `pid`, in order.
pub open spec fn cards_for(cards: Seq<FileCardRow>, pid: Seq<char>, n: int) -> Seq<FileCardRow>
    decreases n,
{
    if n <= 0 {
        Seq::empty()
    } else if cards[n - 1].project_id@ == pid {
        cards_for(cards, pid, n - 1).push(cards[n - 1])
    } else {
        cards_for(cards, pid, n - 1)
    }
}

/// How many of the first `n` items belong to some row of `rows`.
pub open spec fn items_matched(items: Seq<Item>, rows: Seq<ProjectRow>, n: int) -> int
    decreases n,
{
    if n <= 0 {
        0
    } else {
        items_matched(items, rows, n - 1) + if rows_have(rows, items[n - 1].project_id@) {
            1int
        } else {
            0int
        }
    }
}

/// How many of the first `n` card rows belong to some row of `rows`.
pub open spec fn cards_matched(cards: Seq<FileCardRow>, rows: Seq<ProjectRow>, n: int) -> int
    decreases n,
{
    if n <= 0 {
        0
    } else {
        cards_matched(cards, rows, n - 1) + if rows_have(rows, cards[n - 1].project_id@) {
            1int
        } else {
            0int
        }
    }
}

/// Whether `fc` is the live form of wire row `cr`: a flag is set
/// exactly when the wire carries 1.
pub open spec fn card_from_row(fc: FileCard, cr: FileCardRow) -> bool {
    &&& fc.id == cr.id
    &&& fc.project_id == cr.project_id
    &&& fc.filename == cr.filename
    &&& fc.file_path == cr.file_path
    &&& fc.position_x == cr.position_x
    &&& fc.position_y == cr.position_y
    &&& fc.is_expanded == (cr.is_expanded == 1)
    &&& fc.is_minimized == (cr.is_minimized == 1)
    &&& fc.z_index == cr.z_index
    &&& fc.created_at == cr.created_at
    &&& fc.updated_at == cr.updated_at
}

/// Whether document `d` is what importing row `row` out of envelope
/// `data` produces: the record fields of the row, no todos, exactly
/// the envelope's items for this project, and the envelope's cards for
/// this project in live form.
pub open spec fn imported_doc(d: ProjectData, row: ProjectRow, data: ImportData) -> bool {
    &&& d.id == row.id
    &&& d.name == row.name
    &&& d.description == row.description
    &&& d.metadata.mdv() == row.metadata.mdv()
    &&& d.created_at == row.created_at
    &&& d.updated_at == row.updated_at
    &&& d.todos@.len() == 0
    &&& d.items@ == items_for(data.items@, row.id@, data.items@.len() as int)
    &&& d.file_cards@.len() == cards_for(
        data_cards(data),
        row.id@,
        data_cards(data).len() as int,
    ).len()
    &&& forall|k: int|
        0 <= k < d.file_cards@.len() ==> card_from_row(
            #[trigger] d.file_cards@[k],
            cards_for(data_cards(data), row.id@, data_cards(data).len() as int)[k],
        )
}

/// Whether every item id of every loaded document occurs among the
/// first `n` envelope items.
pub open spec fn doc_item_ids_from(ps: Seq<ProjectData>, items: Seq<Item>, n: int) -> bool {
    forall|i: int, k2: int|
        0 <= i < ps.len() && 0 <= k2 < ps[i].items@.len() ==> exists|j: int|
            0 <= j < n && items[j].id@ == (#[trigger] ps[i].items@[k2]).id@
}

/// Whether every card id of every loaded document occurs among the
/// first `n` envelope card rows.
pub open spec fn doc_card_ids_from(ps: Seq<ProjectData>, cards: Seq<FileCardRow>, n: int) -> bool {
    forall|i: int, k2: int|
        0 <= i < ps.len() && 0 <= k2 < ps[i].file_cards@.len() ==> exists|j: int|
            0 <= j < n && cards[j].id@ == (#[trigger] ps[i].file_cards@[k2]).id@
}

/// The views of a list of id strings, in order.
pub open spec fn id_views(ids: Seq<String>) -> Seq<Seq<char>> {
    ids.map_values(|s: String| s@)
}

/// The id views of a list of documents, in order.
pub open spec fn doc_id_views(ps: Seq<ProjectData>) -> Seq<Seq<char>> {
    ps.map_values(|p: ProjectData| p.id@)
}

/// Whether some view in `vs` reads `id`.
pub open spec fn views_has(vs: Seq<Seq<char>>, id: Seq<char>) -> bool {
    exists|j: int| 0 <= j < vs.len() && vs[j] == id
}

/// A list of ids holds `v` exactly when its views do.
pub proof fn lemma_id_views_has(ids: Seq<String>, v: Seq<char>)
    ensures
        views_has(id_views(ids), v) <==> ids_has(ids, v),
{
    if views_has(id_views(ids), v) {
        let j = choose|j: int| 0 <= j < id_views(ids).len() && id_views(ids)[j] == v;
        assert(ids[j]@ == v);
    }
    if ids_has(ids, v) {
        let j = choose|j: int| 0 <= j < ids.len() && ids[j]@ == v;
        assert(id_views(ids)[j] == v);
    }
}

/// A list of documents has project `v` exactly when its id views do.
pub proof fn lemma_doc_id_views_has(ps: Seq<ProjectData>, v: Seq<char>)
    ensures
        views_has(doc_id_views(ps), v) <==> docs_have(ps, v),
{
    if views_has(doc_id_views(ps), v) {
        let j = choose|j: int| 0 <= j < doc_id_views(ps).len() && doc_id_views(ps)[j] == v;
        assert(ps[j].id@ == v);
    }
    if docs_have(ps, v) {
        let j = choose|j: int| 0 <= j < ps.len() && ps[j].id@ == v;
        assert(doc_id_views(ps)[j] == v);
    }
}

/// The item-id views of the first `n` documents, in document order.
pub open spec fn doc_item_id_views(ps: Seq<ProjectData>, n: int) -> Seq<Seq<char>>
    decreases n,
{
    if n <= 0 {
        Seq::empty()
    } else {
        doc_item_id_views(ps, n - 1) + ps[n - 1].items@.map_values(|it: Item| it.id@)
    }
}

/// The card-id views of the first `n` documents, in document order.
pub open spec fn doc_card_id_views(ps: Seq<ProjectData>, n: int) -> Seq<Seq<char>>
    decreases n,
{
    if n <= 0 {
        Seq::empty()
    } else {
        doc_card_id_views(ps, n - 1) + ps[n - 1].file_cards@.map_values(|fc: FileCard| fc.id@)
    }
}

/// Some document among the first `n` holds an item with id `x`
/// exactly when the collected item-id views do.
pub proof fn lemma_doc_item_id_views_has(ps: Seq<ProjectData>, n: int, x: Seq<char>)
    requires
        0 <= n <= ps.len(),
    ensures
        views_has(doc_item_id_views(ps, n), x) <==> exists|i: int, k: int|
            0 <= i < n && 0 <= k < ps[i].items@.len() && ps[i].items@[k].id@ == x,
    decreases n,
{
    if n > 0 {
        lemma_doc_item_id_views_has(ps, n - 1, x);
        let a = doc_item_id_views(ps, n - 1);
        let b = ps[n - 1].items@.map_values(|it: Item| it.id@);
        if views_has(a + b, x) {
            let j = choose|j: int| 0 <= j < (a + b).len() && (a + b)[j] == x;
            if j < a.len() {
                assert(a[j] == x);
                assert(views_has(a, x));
            } else {
                assert(b[j - a.len()] == x);
                assert(ps[n - 1].items@[j - a.len()].id@ == x);
            }
        }
        if exists|i: int, k: int|
            0 <= i < n && 0 <= k < ps[i].items@.len() && ps[i].items@[k].id@ == x {
            let (i, k) = choose|i: int, k: int|
                0 <= i < n && 0 <= k < ps[i].items@.len() && ps[i].items@[k].id@ == x;
            if i < n - 1 {
                assert(views_has(a, x));
                let j = choose|j: int| 0 <= j < a.len() && a[j] == x;
                assert((a + b)[j] == x);
            } else {
                assert(b[k] == x);
                assert((a + b)[a.len() + k] == x);
            }
        }
    }
}

/// Some document among the first `n` holds a card with id `x` exactly
/// when the collected card-id views do.
pub proof fn lemma_doc_card_id_views_has(ps: Seq<ProjectData>, n: int, x: Seq<char>)
    requires
        0 <= n <= ps.len(),
    ensures
        views_has(doc_card_id_views(ps, n), x) <==> exists|i: int, k: int|
            0 <= i < n && 0 <= k < ps[i].file_cards@.len() && ps[i].file_cards@[k].id@ == x,
    decreases n,
{
    if n > 0 {
        lemma_doc_card_id_views_has(ps, n - 1, x);
        let a = doc_card_id_views(ps, n - 1);
        let b = ps[n - 1].file_cards@.map_values(|fc: FileCard| fc.id@);
        if views_has(a + b, x) {
            let j = choose|j: int| 0 <= j < (a + b).len() && (a + b)[j] == x;
            if j < a.len() {
                assert(a[j] == x);
                assert(views_has(a, x));
            } else {
                assert(b[j - a.len()] == x);
                assert(ps[n - 1].file_cards@[j - a.len()].id@ == x);
            }
        }
        if exists|i: int, k: int|
            0 <= i < n && 0 <= k < ps[i].file_cards@.len() && ps[i].file_cards@[k].id@ == x {
            let (i, k) = choose|i: int, k: int|
                0 <= i < n && 0 <= k < ps[i].file_cards@.len() && ps[i].file_cards@[k].id@ == x;
            if i < n - 1 {
                assert(views_has(a, x));
                let j = choose|j: int| 0 <= j < a.len() && a[j] == x;
                assert((a + b)[j] == x);
            } else {
                assert(b[k] == x);
                assert((a + b)[a.len() + k] == x);
            }
        }
    }
}

/// The project-id views present after the first `n` rows of an import
/// over the index views `base`: a row whose id is already present is
/// skipped, any other row adds its id.
pub open spec fn import_ids_after(base: Seq<Seq<char>>, rows: Seq<ProjectRow>, n: int) -> Seq<
    Seq<char>,
>
    decreases n,
{
    if n <= 0 {
        base
    } else {
        let prev = import_ids_after(base, rows, n - 1);
        if views_has(prev, rows[n - 1].id@) {
            prev
        } else {
            prev.push(rows[n - 1].id@)
        }
    }
}

/// The item-id views present after the first `n` envelope items were
/// offered, over the existing item ids `base` and the loaded project
/// ids `docviews`: an item is taken in exactly when its id is new and
/// its parent project is loaded.
pub open spec fn import_item_ids_after(
    base: Seq<Seq<char>>,
    docviews: Seq<Seq<char>>,
    items: Seq<Item>,
    n: int,
) -> Seq<Seq<char>>
    decreases n,
{
    if n <= 0 {
        base
    } else {
        let prev = import_item_ids_after(base, docviews, items, n - 1);
        let it = items[n - 1];
        if !views_has(prev, it.id@) && views_has(docviews, it.project_id@) {
            prev.push(it.id@)
        } else {
            prev
        }
    }
}

/// Whether envelope item `k` is taken in.
pub open spec fn item_taken(
    base: Seq<Seq<char>>,
    docviews: Seq<Seq<char>>,
    items: Seq<Item>,
    k: int,
) -> bool {
    &&& !views_has(import_item_ids_after(base, docviews, items, k), items[k].id@)
    &&& views_has(docviews, items[k].project_id@)
}

/// The envelope items taken in for project `pid` among the first `n`,
/// in order.
pub open spec fn taken_items_for(
    base: Seq<Seq<char>>,
    docviews: Seq<Seq<char>>,
    items: Seq<Item>,
    pid: Seq<char>,
    n: int,
) -> Seq<Item>
    decreases n,
{
    if n <= 0 {
        Seq::empty()
    } else {
        let prev = taken_items_for(base, docviews, items, pid, n - 1);
        if item_taken(base, docviews, items, n - 1) && items[n - 1].project_id@ == pid {
            prev.push(items[n - 1])
        } else {
            prev
        }
    }
}

/// The card-id views present after the first `n` envelope card rows
/// were offered.
pub open spec fn import_card_ids_after(
    base: Seq<Seq<char>>,
    docviews: Seq<Seq<char>>,
    cards: Seq<FileCardRow>,
    n: int,
) -> Seq<Seq<char>>
    decreases n,
{
    if n <= 0 {
        base
    } else {
        let prev = import_card_ids_after(base, docviews, cards, n - 1);
        let cr = cards[n - 1];
        if !views_has(prev, cr.id@) && views_has(docviews, cr.project_id@) {
            prev.push(cr.id@)
        } else {
            prev
        }
    }
}

/// Whether envelope card row `k` is taken in.
pub open spec fn card_taken(
    base: Seq<Seq<char>>,
    docviews: Seq<Seq<char>>,
    cards: Seq<FileCardRow>,
    k: int,
) -> bool {
    &&& !views_has(import_card_ids_after(base, docviews, cards, k), cards[k].id@)
    &&& views_has(docviews, cards[k].project_id@)
}

/// The envelope card rows taken in for project `pid` among the first
/// `n`, in order.
pub open spec fn taken_cards_for(
    base: Seq<Seq<char>>,
    docviews: Seq<Seq<char>>,
    cards: Seq<FileCardRow>,
    pid: Seq<char>,
    n: int,
) -> Seq<FileCardRow>
    decreases n,
{
    if n <= 0 {
        Seq::empty()
    } else {
        let prev = taken_cards_for(base, docviews, cards, pid, n - 1);
        if card_taken(base, docviews, cards, n - 1) && cards[n - 1].project_id@ == pid {
            prev.push(cards[n - 1])
        } else {
            prev
        }
    }
}

/// Whether some loaded document holds an item with id `x`.
pub open spec fn store_items_have(ps: Seq<ProjectData>, x: Seq<char>) -> bool {
    exists|i: int, k: int|
        0 <= i < ps.len() && 0 <= k < ps[i].items@.len() && ps[i].items@[k].id@ == x
}

/// Whether some loaded document holds a card with id `x`.
pub open spec fn store_cards_have(ps: Seq<ProjectData>, x: Seq<char>) -> bool {
    exists|i: int, k: int|
        0 <= i < ps.len() && 0 <= k < ps[i].file_cards@.len() && ps[i].file_cards@[k].id@ == x
}

/// `doc_item_id_views` reads only the first `n` documents.
proof fn lemma_doc_item_id_views_prefix(s1: Seq<ProjectData>, s2: Seq<ProjectData>, n: int)
    requires
        0 <= n <= s1.len(),
        n <= s2.len(),
        forall|k: int| 0 <= k < n ==> (#[trigger] s1[k]).items == s2[k].items,
    ensures
        doc_item_id_views(s1, n) == doc_item_id_views(s2, n),
    decreases n,
{
    if n > 0 {
        lemma_doc_item_id_views_prefix(s1, s2, n - 1);
    }
}

/// Documents without items contribute nothing to the item-id views.
proof fn lemma_doc_item_id_views_pad(ps: Seq<ProjectData>, m: int, n: int)
    requires
        0 <= m <= n <= ps.len(),
        forall|t: int| m <= t < n ==> (#[trigger] ps[t]).items@.len() == 0,
    ensures
        doc_item_id_views(ps, n) == doc_item_id_views(ps, m),
    decreases n - m,
{
    if n > m {
        lemma_doc_item_id_views_pad(ps, m, n - 1);
        assert(ps[n - 1].items@.map_values(|it: Item| it.id@) =~= Seq::<Seq<char>>::empty());
        assert(doc_item_id_views(ps, n) =~= doc_item_id_views(ps, n - 1));
    }
}

/// `doc_card_id_views` reads only the first `n` documents.
proof fn lemma_doc_card_id_views_prefix(s1: Seq<ProjectData>, s2: Seq<ProjectData>, n: int)
    requires
        0 <= n <= s1.len(),
        n <= s2.len(),
        forall|k: int| 0 <= k < n ==> (#[trigger] s1[k]).file_cards == s2[k].file_cards,
    ensures
        doc_card_id_views(s1, n) == doc_card_id_views(s2, n),
    decreases n,
{
    if n > 0 {
        lemma_doc_card_id_views_prefix(s1, s2, n - 1);
    }
}

/// Documents without cards contribute nothing to the card-id views.
proof fn lemma_doc_card_id_views_pad(ps: Seq<ProjectData>, m: int, n: int)
    requires
        0 <= m <= n <= ps.len(),
        forall|t: int| m <= t < n ==> (#[trigger] ps[t]).file_cards@.len() == 0,
    ensures
        doc_card_id_views(ps, n) == doc_card_id_views(ps, m),
    decreases n - m,
{
    if n > m {
        lemma_doc_card_id_views_pad(ps, m, n - 1);
        assert(ps[n - 1].file_cards@.map_values(|fc: FileCard| fc.id@) =~= Seq::<
            Seq<char>,
        >::empty());
        assert(doc_card_id_views(ps, n) =~= doc_card_id_views(ps, n - 1));
    }
}


/// What any import guarantees, whatever the envelope: over the base
/// (the store as it stood, or empty in replace mode) the index gains
/// exactly the new row ids in order; every pre-existing document keeps
/// its record, todos and children, gaining only the envelope's taken
/// items and cards for it; and the counters report exactly the rows,
/// items and cards taken in and skipped.
pub open spec fn import_general_post(
    pre: JsonStore,
    post: JsonStore,
    data: ImportData,
    replace: bool,
    res: ImportResult,
) -> bool {
    let bd = if replace {
        Seq::<ProjectData>::empty()
    } else {
        pre.projects@
    };
    let ebi = if replace {
        Seq::<Seq<char>>::empty()
    } else {
        id_views(pre.metadata.project_ids@)
    };
    let rows = data.projects@;
    let items = data.items@;
    let cards = data_cards(data);
    let ids1 = import_ids_after(ebi, rows, rows.len() as int);
    let edv = doc_id_views(bd) + ids1.skip(ebi.len() as int);
    let ebitems = doc_item_id_views(bd, bd.len() as int);
    let ebcards = doc_card_id_views(bd, bd.len() as int);
    &&& id_views(post.metadata.project_ids@) == ids1
    &&& post.projects@.len() == bd.len() + (ids1.len() - ebi.len())
    &&& (forall|t: int|
        0 <= t < bd.len() ==> ({
            let d0 = #[trigger] bd[t];
            let d1 = post.projects@[t];
            let wantc = taken_cards_for(ebcards, edv, cards, d0.id@, cards.len() as int);
            &&& d1.id == d0.id
            &&& d1.name == d0.name
            &&& d1.description == d0.description
            &&& d1.metadata == d0.metadata
            &&& d1.todos == d0.todos
            &&& d1.created_at == d0.created_at
            &&& d1.updated_at == d0.updated_at
            &&& d1.items@ == d0.items@ + taken_items_for(
                ebitems,
                edv,
                items,
                d0.id@,
                items.len() as int,
            )
            &&& d1.file_cards@.len() == d0.file_cards@.len() + wantc.len()
            &&& (forall|k2: int|
                0 <= k2 < d0.file_cards@.len() ==> d1.file_cards@[k2] == d0.file_cards@[k2])
            &&& (forall|k2: int|
                0 <= k2 < wantc.len() ==> card_from_row(
                    d1.file_cards@[d0.file_cards@.len() + k2],
                    #[trigger] wantc[k2],
                ))
        }))
    &&& res.projects_imported as int == ids1.len() - ebi.len()
    &&& res.items_imported as int == import_item_ids_after(
        ebitems,
        edv,
        items,
        items.len() as int,
    ).len() - ebitems.len()
    &&& res.file_cards_imported as int == import_card_ids_after(
        ebcards,
        edv,
        cards,
        cards.len() as int,
    ).len() - ebcards.len()
    &&& res.skipped as int == (rows.len() - (ids1.len() - ebi.len())) + (items.len() - (
    import_item_ids_after(ebitems, edv, items, items.len() as int).len() - ebitems.len())) + (
    cards.len() - (import_card_ids_after(ebcards, edv, cards, cards.len() as int).len()
        - ebcards.len()))
}

impl JsonStore {
    /// Whether any loaded document holds an item with the given id.
    pub fn any_item_with_id(&self, id: &str) -> (r: bool)
        ensures
            r == exists|i: int, k: int|
                0 <= i < self.projects@.len() && 0 <= k < self.projects@[i].items@.len()
                    && self.projects@[i].items@[k].id@ == id@,
    {
        let mut i: usize = 0;
        while i < self.projects.len()
            invariant
                i <= self.projects@.len(),
                forall|i2: int, k: int|
                    0 <= i2 < i as int && 0 <= k < self.projects@[i2].items@.len()
                        ==> self.projects@[i2].items@[k].id@ != id@,
            decreases self.projects@.len() - i,
        {
            if find_item_in(&self.projects[i].items, id).is_some() {
                return true;
            }
            i = i + 1;
        }
        false
    }

    /// Whether any loaded document holds a file card with the given id.
    pub fn any_card_with_id(&self, id: &str) -> (r: bool)
        ensures
            r == exists|i: int, k: int|
                0 <= i < self.projects@.len() && 0 <= k < self.projects@[i].file_cards@.len()
                    && self.projects@[i].file_cards@[k].id@ == id@,
    {
        let mut i: usize = 0;
        while i < self.projects.len()
            invariant
                i <= self.projects@.len(),
                forall|i2: int, k: int|
                    0 <= i2 < i as int && 0 <= k < self.projects@[i2].file_cards@.len()
                        ==> self.projects@[i2].file_cards@[k].id@ != id@,
            decreases self.projects@.len() - i,
        {
            if find_card_in(&self.projects[i].file_cards, id).is_some() {
                return true;
            }
            i = i + 1;
        }
        false
    }

    /// Imports an envelope.  A record whose id already exists, or an
    /// item or card whose parent project is absent, is skipped and
    /// counted as skipped; nothing of a skipped record is written.  In
    /// replace mode every existing project is deleted first.  Imported
    /// records keep the timestamps they carry.
    ///
    /// Importing a duplicate-free envelope into an empty store (or in
    /// replace mode) takes every row in order, attaches to each project
    /// exactly the envelope's items and cards for it, and skips only
    /// the items and cards whose parent project is not in the envelope.
    #[verifier::rlimit(100)]
    pub fn import_data_at(&mut self, data: ImportData, replace: bool) -> (r: Result<
        ImportResult,
        String,
    >)
        requires
            old(self).wf(),
            data.projects@.len() + data.items@.len() + data_cards(data).len() <= i32::MAX as int,
        ensures
            final(self).wf(),
            r is Ok,
            final(self).metadata.global_settings == old(self).metadata.global_settings,
            final(self).metadata.version == old(self).metadata.version,
            final(self).last_metadata_mtime == old(self).last_metadata_mtime,
            r matches Ok(res) && ((clean_envelope(data) && (replace || (old(self).projects@.len() == 0 && old(self).metadata.project_ids@.len() == 0))) ==> ({
                let rows = data.projects@;
                let items = data.items@;
                let cards = data_cards(data);
                &&& final(self).projects@.len() == rows.len()
                &&& final(self).metadata.project_ids@.len() == rows.len()
                &&& (forall|t: int|
                    0 <= t < rows.len() ==> final(self).metadata.project_ids@[t]@ == rows[t].id@)
                &&& (forall|t: int|
                    0 <= t < rows.len() ==> imported_doc(
                        final(self).projects@[t],
                        #[trigger] rows[t],
                        data,
                    ))
                &&& res.projects_imported as int == rows.len()
                &&& res.items_imported as int == items_matched(items, rows, items.len() as int)
                &&& res.file_cards_imported as int == cards_matched(
                    cards,
                    rows,
                    cards.len() as int,
                )
                &&& res.skipped as int == (items.len() - items_matched(
                    items,
                    rows,
                    items.len() as int,
                )) + (cards.len() - cards_matched(cards, rows, cards.len() as int))
            })),
            r matches Ok(res) ==> import_general_post(
                *old(self),
                *final(self),
                data,
                replace,
                res,
            ),
    {
        let ghost gdata = data;
        let ghost hyp = clean_envelope(gdata) && (replace || (old(self).projects@.len() == 0 && old(self).metadata.project_ids@.len() == 0));
        if replace {
            self.projects.clear();
            self.metadata.project_ids.clear();
        }
        let ImportData { projects: rows, items: in_items, file_cards: maybe_cards } = data;
        let in_cards: Vec<FileCardRow> = match maybe_cards {
            Some(v) => v,
            None => Vec::new(),
        };
        let ghost grows = rows@;
        let ghost gitems = in_items@;
        let ghost gcards = data_cards(gdata);
        proof {
            assert(in_cards@ == gcards);
        }
        let mut projects_imported: i32 = 0;
        let mut items_imported: i32 = 0;
        let mut file_cards_imported: i32 = 0;
        let mut skipped: i32 = 0;
        let ghost base = *self;
        let ghost bi = id_views(base.metadata.project_ids@);
        proof {
            assert(import_ids_after(bi, grows, 0) == bi);
            assert(bi.skip(bi.len() as int) =~= Seq::<Seq<char>>::empty());
            assert(doc_id_views(base.projects@) + bi.skip(bi.len() as int) =~= doc_id_views(
                base.projects@,
            ));
        }

        // Rows: one fresh document per row whose id is new.
        let mut j: usize = 0;
        while j < rows.len()
            invariant
                self.wf(),
                j <= rows@.len(),
                rows@ == grows,
                grows.len() + gitems.len() + gcards.len() <= i32::MAX as int,
                base.wf(),
                self.metadata.global_settings == base.metadata.global_settings,
                self.metadata.version == base.metadata.version,
                self.last_metadata_mtime == base.last_metadata_mtime,
                0 <= projects_imported as int,
                0 <= skipped as int,
                projects_imported as int + skipped as int == j as int,
                items_imported == 0,
                file_cards_imported == 0,
                bi == id_views(base.metadata.project_ids@),
                id_views(self.metadata.project_ids@) == import_ids_after(bi, grows, j as int),
                self.projects@.len() == base.projects@.len() + (import_ids_after(
                    bi,
                    grows,
                    j as int,
                ).len() - bi.len()),
                forall|t: int|
                    0 <= t < base.projects@.len() ==> self.projects@[t] == base.projects@[t],
                doc_id_views(self.projects@) == doc_id_views(base.projects@) + import_ids_after(
                    bi,
                    grows,
                    j as int,
                ).skip(bi.len() as int),
                forall|t: int|
                    base.projects@.len() <= t < self.projects@.len() ==> ((
                    #[trigger] self.projects@[t]).items@.len() == 0 && self.projects@[t].todos@.len()
                        == 0 && self.projects@[t].file_cards@.len() == 0),
                projects_imported as int == import_ids_after(bi, grows, j as int).len()
                    - bi.len(),
                hyp ==> (base.projects@.len() == 0 && base.metadata.project_ids@.len() == 0
                    && row_ids_unique(grows) && item_ids_unique(gitems) && card_row_ids_unique(
                    gcards,
                )),
                hyp ==> (self.projects@.len() == j as int
                    && self.metadata.project_ids@.len() == j as int && projects_imported as int == j
                    as int),
                hyp ==> (forall|t: int|
                    0 <= t < j as int ==> self.metadata.project_ids@[t]@ == grows[t].id@),
                hyp ==> (forall|t: int|
                    0 <= t < j as int ==> ({
                        let d = #[trigger] self.projects@[t];
                        &&& d.id == grows[t].id
                        &&& d.name == grows[t].name
                        &&& d.description == grows[t].description
                        &&& d.metadata.mdv() == grows[t].metadata.mdv()
                        &&& d.created_at == grows[t].created_at
                        &&& d.updated_at == grows[t].updated_at
                        &&& d.items@.len() == 0
                        &&& d.todos@.len() == 0
                        &&& d.file_cards@.len() == 0
                    })),
            decreases rows@.len() - j,
        {
            let ghost snap = *self;
            let row = &rows[j];
            if self.find_index(row.id.as_str()).is_some() {
                skipped = skipped + 1;
                proof {
                    lemma_id_views_has(snap.metadata.project_ids@, grows[j as int].id@);
                    assert(views_has(
                        import_ids_after(bi, grows, j as int),
                        grows[j as int].id@,
                    ));
                    assert(import_ids_after(bi, grows, j as int + 1) == import_ids_after(
                        bi,
                        grows,
                        j as int,
                    ));
                    if hyp {
                        let w = choose|w: int|
                            0 <= w < snap.metadata.project_ids@.len()
                                && snap.metadata.project_ids@[w]@ == grows[j as int].id@;
                        assert(grows[w].id@ == grows[j as int].id@);
                        assert(false);
                    }
                }
            } else {
                let pd = ProjectData {
                    id: row.id.clone(),
                    name: row.name.clone(),
                    description: row.description.clone(),
                    metadata: row.metadata.clone(),
                    items: Vec::new(),
                    todos: Vec::new(),
                    file_cards: Vec::new(),
                    created_at: row.created_at.clone(),
                    updated_at: row.updated_at.clone(),
                };
                proof {
                    if snap.has_doc(pd.id@) {
                        let w = choose|w: int|
                            0 <= w < snap.projects@.len() && snap.projects@[w].id@ == pd.id@;
                        assert(ids_has(snap.metadata.project_ids@, snap.projects@[w].id@));
                        assert(false);
                    }
                    assert(pd.wf());
                }
                self.projects.push(pd);
                self.metadata.project_ids.push(row.id.clone());
                projects_imported = projects_imported + 1;
                proof {
                    let previds = snap.metadata.project_ids@;
                    let prevps = snap.projects@;
                    let x = self.metadata.project_ids@.last();
                    let gpd = self.projects@.last();
                    assert(self.metadata.project_ids@ =~= previds.push(x));
                    assert(self.projects@ =~= prevps.push(gpd));
                    lemma_ids_push(previds, x);
                    lemma_ids_unique_push(previds, x);
                    lemma_docs_unique_push(prevps, gpd);
                    assert forall|i2: int| 0 <= i2 < self.projects@.len() implies ids_has(
                        self.metadata.project_ids@,
                        #[trigger] self.projects@[i2].id@,
                    ) by {
                        if i2 < self.projects@.len() - 1 {
                            assert(self.projects@[i2] == prevps[i2]);
                            assert(ids_has(previds, prevps[i2].id@));
                        }
                    };
                    assert forall|i2: int| 0 <= i2 < self.projects@.len() implies (
                    #[trigger] self.projects@[i2]).wf() by {
                        if i2 < self.projects@.len() - 1 {
                            assert(self.projects@[i2] == prevps[i2]);
                            assert(prevps[i2].wf());
                        }
                    };
                    lemma_id_views_has(snap.metadata.project_ids@, grows[j as int].id@);
                    assert(!views_has(
                        import_ids_after(bi, grows, j as int),
                        grows[j as int].id@,
                    ));
                    let ids1 = import_ids_after(bi, grows, j as int + 1);
                    assert(ids1 == import_ids_after(bi, grows, j as int).push(
                        grows[j as int].id@,
                    ));
                    assert(x@ == grows[j as int].id@);
                    assert forall|w: int| 0 <= w < id_views(self.metadata.project_ids@).len() implies
                        id_views(self.metadata.project_ids@)[w] == ids1[w] by {
                        if w < previds.len() {
                            assert(self.metadata.project_ids@[w] == previds[w]);
                            assert(id_views(previds)[w] == import_ids_after(bi, grows, j as int)[w]);
                        }
                    };
                    assert(id_views(self.metadata.project_ids@) =~= ids1);
                    assert(gpd.id@ == grows[j as int].id@);
                    assert forall|w: int| 0 <= w < doc_id_views(self.projects@).len() implies
                        doc_id_views(self.projects@)[w] == (doc_id_views(base.projects@)
                        + ids1.skip(bi.len() as int))[w] by {
                        if w < prevps.len() {
                            assert(self.projects@[w] == prevps[w]);
                            assert(doc_id_views(prevps)[w] == (doc_id_views(base.projects@)
                                + import_ids_after(bi, grows, j as int).skip(bi.len() as int))[w]);
                        }
                    };
                    assert(doc_id_views(self.projects@) =~= doc_id_views(base.projects@)
                        + ids1.skip(bi.len() as int));
                }
            }
            j = j + 1;
        }

        let ghost mid = *self;
        let ghost dv = doc_id_views(mid.projects@);
        let ghost bitems = doc_item_id_views(mid.projects@, mid.projects@.len() as int);
        proof {
            assert(import_item_ids_after(bitems, dv, gitems, 0) == bitems);
            assert forall|x: Seq<char>| #[trigger] views_has(
                import_item_ids_after(bitems, dv, gitems, 0),
                x,
            ) <==> store_items_have(self.projects@, x) by {
                lemma_doc_item_id_views_has(mid.projects@, mid.projects@.len() as int, x);
            };
            assert forall|t: int| 0 <= t < mid.projects@.len() implies (
            #[trigger] self.projects@[t]).items@ == mid.projects@[t].items@ + taken_items_for(
                bitems,
                dv,
                gitems,
                mid.projects@[t].id@,
                0,
            ) by {
                assert(mid.projects@[t].items@ + Seq::<Item>::empty() =~= mid.projects@[t].items@);
            };
            assert(gitems.take(0) =~= Seq::<Item>::empty());
            if hyp {
                assert forall|t: int| 0 <= t < grows.len() implies (
                #[trigger] self.projects@[t]).items@ =~= items_for(gitems, grows[t].id@, 0) by {
                    assert(self.projects@[t].items@.len() == 0);
                };
            }
        }

        // Items: attach each to its project, skipping duplicates and
        // orphans.
        let mut k: usize = 0;
        while k < in_items.len()
            invariant
                self.wf(),
                k <= in_items@.len(),
                in_items@ == gitems,
                grows.len() + gitems.len() + gcards.len() <= i32::MAX as int,
                self.metadata == mid.metadata,
                self.last_metadata_mtime == mid.last_metadata_mtime,
                self.projects@.len() == mid.projects@.len(),
                forall|t: int|
                    0 <= t < mid.projects@.len() ==> ({
                        let d0 = #[trigger] mid.projects@[t];
                        let d1 = self.projects@[t];
                        &&& d1.id == d0.id
                        &&& d1.name == d0.name
                        &&& d1.description == d0.description
                        &&& d1.metadata == d0.metadata
                        &&& d1.todos == d0.todos
                        &&& d1.file_cards == d0.file_cards
                        &&& d1.created_at == d0.created_at
                        &&& d1.updated_at == d0.updated_at
                    }),
                0 <= items_imported as int,
                0 <= skipped as int,
                items_imported as int <= k as int,
                skipped as int <= grows.len() + k as int,
                items_imported as int + skipped as int == grows.len() - projects_imported as int
                    + k as int,
                0 <= projects_imported as int <= grows.len(),
                file_cards_imported == 0,
                dv == doc_id_views(mid.projects@),
                bitems == doc_item_id_views(mid.projects@, mid.projects@.len() as int),
                forall|x: Seq<char>|
                    #[trigger] views_has(
                        import_item_ids_after(bitems, dv, gitems, k as int),
                        x,
                    ) <==> store_items_have(self.projects@, x),
                forall|t: int|
                    0 <= t < mid.projects@.len() ==> (#[trigger] self.projects@[t]).items@
                        == mid.projects@[t].items@ + taken_items_for(
                        bitems,
                        dv,
                        gitems,
                        mid.projects@[t].id@,
                        k as int,
                    ),
                items_imported as int == import_item_ids_after(
                    bitems,
                    dv,
                    gitems,
                    k as int,
                ).len() - bitems.len(),
                skipped as int == (grows.len() - projects_imported as int) + (k as int - (
                import_item_ids_after(bitems, dv, gitems, k as int).len() - bitems.len())),
                hyp ==> (row_ids_unique(grows) && item_ids_unique(gitems) && card_row_ids_unique(
                    gcards,
                )),
                hyp ==> (mid.projects@.len() == grows.len() && projects_imported as int
                    == grows.len() && self.metadata.project_ids@.len() == grows.len()),
                hyp ==> (forall|t: int|
                    0 <= t < grows.len() ==> self.metadata.project_ids@[t]@ == grows[t].id@),
                hyp ==> (forall|t: int|
                    0 <= t < grows.len() ==> ({
                        let d0 = #[trigger] mid.projects@[t];
                        &&& d0.id == grows[t].id
                        &&& d0.name == grows[t].name
                        &&& d0.description == grows[t].description
                        &&& d0.metadata.mdv() == grows[t].metadata.mdv()
                        &&& d0.created_at == grows[t].created_at
                        &&& d0.updated_at == grows[t].updated_at
                        &&& d0.todos@.len() == 0
                        &&& d0.file_cards@.len() == 0
                    })),
                hyp ==> (forall|t: int|
                    0 <= t < grows.len() ==> (#[trigger] self.projects@[t]).items@ == items_for(
                        gitems,
                        grows[t].id@,
                        k as int,
                    )),
                hyp ==> items_imported as int == items_matched(gitems, grows, k as int),
                hyp ==> skipped as int == k as int - items_matched(gitems, grows, k as int),
                hyp ==> doc_item_ids_from(self.projects@, gitems, k as int),
            decreases in_items@.len() - k,
        {
            let ghost snap = *self;
            let it = &in_items[k];
            if self.any_item_with_id(it.id.as_str()) {
                skipped = skipped + 1;
                proof {
                    assert(store_items_have(snap.projects@, gitems[k as int].id@));
                    assert(views_has(
                        import_item_ids_after(bitems, dv, gitems, k as int),
                        gitems[k as int].id@,
                    ));
                    assert(import_item_ids_after(bitems, dv, gitems, k as int + 1)
                        == import_item_ids_after(bitems, dv, gitems, k as int));
                    assert(!item_taken(bitems, dv, gitems, k as int));
                    assert forall|t: int| 0 <= t < mid.projects@.len() implies (
                    #[trigger] self.projects@[t]).items@ == mid.projects@[t].items@
                        + taken_items_for(
                        bitems,
                        dv,
                        gitems,
                        mid.projects@[t].id@,
                        k as int + 1,
                    ) by {
                        assert(taken_items_for(
                            bitems,
                            dv,
                            gitems,
                            mid.projects@[t].id@,
                            k as int + 1,
                        ) == taken_items_for(bitems, dv, gitems, mid.projects@[t].id@, k as int));
                    };
                    if hyp {
                        let (wi, wk) = choose|wi: int, wk: int|
                            0 <= wi < snap.projects@.len() && 0 <= wk
                                < snap.projects@[wi].items@.len()
                                && snap.projects@[wi].items@[wk].id@ == gitems[k as int].id@;
                        let wj = choose|wj: int|
                            0 <= wj < k as int && gitems[wj].id@ == snap.projects@[wi].items@[wk].id@;
                        assert(gitems[wj].id@ == gitems[k as int].id@);
                        assert(false);
                    }
                }
            } else {
                let found = self.find_doc(it.project_id.as_str());
                match found {
                    Some(i) => {
                        proof {
                            lemma_docs_at_unique(snap.projects@, it.project_id@, i as int);
                        }
                        let mut pd = self.projects.remove(i);
                        pd.items.push(it.clone());
                        self.projects.insert(i, pd);
                        items_imported = items_imported + 1;
                        proof {
                            assert(self.projects@ =~= snap.projects@.update(
                                i as int,
                                self.projects@[i as int],
                            ));
                            let p0 = snap.projects@[i as int];
                            let p1 = self.projects@[i as int];
                            assert(p1.items@ =~= p0.items@.push(gitems[k as int]));
                            assert forall|k2: int| 0 <= k2 < p1.items@.len() implies p1.items@[k2].project_id@
                                == p1.id@ by {
                                if k2 < p1.items@.len() - 1 {
                                    assert(p0.items@[k2].project_id@ == p0.id@);
                                }
                            };
                            lemma_wf_doc_update(snap, *self, i as int);
                            let x0 = gitems[k as int].id@;
                            let pid = gitems[k as int].project_id@;
                            let prev_ids = import_item_ids_after(bitems, dv, gitems, k as int);
                            let after1 = import_item_ids_after(bitems, dv, gitems, k as int + 1);
                            assert(!store_items_have(snap.projects@, x0));
                            assert(!views_has(prev_ids, x0));
                            assert(views_has(dv, pid)) by {
                                assert(snap.projects@[i as int].id == mid.projects@[i as int].id);
                                assert(dv[i as int] == mid.projects@[i as int].id@);
                            };
                            assert(item_taken(bitems, dv, gitems, k as int));
                            assert(after1 == prev_ids.push(x0));
                            assert forall|t: int| 0 <= t < mid.projects@.len() implies (
                            #[trigger] self.projects@[t]).items@ == mid.projects@[t].items@
                                + taken_items_for(
                                bitems,
                                dv,
                                gitems,
                                mid.projects@[t].id@,
                                k as int + 1,
                            ) by {
                                if t == i as int {
                                    assert(snap.projects@[t].id == mid.projects@[t].id);
                                    assert(mid.projects@[t].id@ == pid);
                                    assert(taken_items_for(bitems, dv, gitems, pid, k as int + 1)
                                        == taken_items_for(bitems, dv, gitems, pid, k as int).push(
                                        gitems[k as int],
                                    ));
                                    assert(snap.projects@[t].items@ == mid.projects@[t].items@
                                        + taken_items_for(bitems, dv, gitems, pid, k as int));
                                    assert(self.projects@[t].items@ =~= mid.projects@[t].items@
                                        + taken_items_for(bitems, dv, gitems, pid, k as int + 1));
                                } else {
                                    assert(self.projects@[t] == snap.projects@[t]);
                                    if t < i as int {
                                        assert(snap.projects@[t].id@ != snap.projects@[
                                        i as int].id@);
                                    } else {
                                        assert(snap.projects@[i as int].id@ != snap.projects@[
                                        t].id@);
                                    }
                                    assert(snap.projects@[t].id == mid.projects@[t].id);
                                    assert(mid.projects@[t].id@ != pid);
                                    assert(taken_items_for(
                                        bitems,
                                        dv,
                                        gitems,
                                        mid.projects@[t].id@,
                                        k as int + 1,
                                    ) == taken_items_for(
                                        bitems,
                                        dv,
                                        gitems,
                                        mid.projects@[t].id@,
                                        k as int,
                                    ));
                                }
                            };
                            assert forall|x: Seq<char>| #[trigger] views_has(after1, x)
                                <==> store_items_have(self.projects@, x) by {
                                if x == x0 {
                                    assert(after1[after1.len() - 1] == x0);
                                    assert(views_has(after1, x));
                                    assert(self.projects@[i as int].items@[self.projects@[
                                    i as int].items@.len() - 1].id@ == x0);
                                    assert(store_items_have(self.projects@, x));
                                } else {
                                    if views_has(after1, x) {
                                        let w = choose|w: int|
                                            0 <= w < after1.len() && after1[w] == x;
                                        assert(w < after1.len() - 1);
                                        assert(prev_ids[w] == x);
                                        assert(views_has(prev_ids, x));
                                        assert(store_items_have(snap.projects@, x));
                                        let (wi, wk) = choose|wi: int, wk: int|
                                            0 <= wi < snap.projects@.len() && 0 <= wk
                                                < snap.projects@[wi].items@.len()
                                                && snap.projects@[wi].items@[wk].id@ == x;
                                        if wi == i as int {
                                            assert(self.projects@[wi].items@[wk].id@ == x);
                                        } else {
                                            assert(self.projects@[wi] == snap.projects@[wi]);
                                            assert(self.projects@[wi].items@[wk].id@ == x);
                                        }
                                        assert(store_items_have(self.projects@, x));
                                    }
                                    if store_items_have(self.projects@, x) {
                                        let (wi, wk) = choose|wi: int, wk: int|
                                            0 <= wi < self.projects@.len() && 0 <= wk
                                                < self.projects@[wi].items@.len()
                                                && self.projects@[wi].items@[wk].id@ == x;
                                        if wi == i as int && wk == self.projects@[
                                        i as int].items@.len() - 1 {
                                            assert(x == x0);
                                            assert(false);
                                        } else {
                                            if wi == i as int {
                                                assert(snap.projects@[wi].items@[wk].id@ == x);
                                            } else {
                                                assert(self.projects@[wi] == snap.projects@[wi]);
                                                assert(snap.projects@[wi].items@[wk].id@ == x);
                                            }
                                            assert(store_items_have(snap.projects@, x));
                                            assert(views_has(prev_ids, x));
                                            let w = choose|w: int|
                                                0 <= w < prev_ids.len() && prev_ids[w] == x;
                                            assert(after1[w] == x);
                                            assert(views_has(after1, x));
                                        }
                                    }
                                }
                            };
                            if hyp {
                                assert(mid.projects@[i as int].id == grows[i as int].id);
                                assert(snap.projects@[i as int].id == mid.projects@[i as int].id);
                                assert(grows[i as int].id@ == p0.id@);
                                assert(rows_have(grows, gitems[k as int].project_id@));
                                assert forall|t: int| 0 <= t < grows.len() implies (
                                #[trigger] self.projects@[t]).items@ == items_for(
                                    gitems,
                                    grows[t].id@,
                                    k as int + 1,
                                ) by {
                                    if t == i as int {
                                        assert(items_for(gitems, grows[t].id@, k as int + 1)
                                            == items_for(gitems, grows[t].id@, k as int).push(
                                            gitems[k as int],
                                        ));
                                    } else {
                                        assert(grows[t].id@ != grows[i as int].id@);
                                        assert(self.projects@[t] == snap.projects@[t]);
                                        assert(items_for(gitems, grows[t].id@, k as int + 1)
                                            == items_for(gitems, grows[t].id@, k as int));
                                    }
                                };
                                assert forall|i2: int, k2: int|
                                    0 <= i2 < self.projects@.len() && 0 <= k2
                                        < self.projects@[i2].items@.len() implies exists|jj: int|
                                    0 <= jj < k as int + 1 && gitems[jj].id@ == (
                                #[trigger] self.projects@[i2].items@[k2]).id@ by {
                                    if i2 == i as int && k2 == self.projects@[i2].items@.len()
                                        - 1 {
                                        assert(gitems[k as int].id@
                                            == self.projects@[i2].items@[k2].id@);
                                    } else {
                                        assert(snap.projects@[i2].items@[k2]
                                            == self.projects@[i2].items@[k2]);
                                        let jj = choose|jj: int|
                                            0 <= jj < k as int && gitems[jj].id@
                                                == snap.projects@[i2].items@[k2].id@;
                                        assert(gitems[jj].id@
                                            == self.projects@[i2].items@[k2].id@);
                                    }
                                };
                            }
                        }
                    },
                    None => {
                        skipped = skipped + 1;
                        proof {
                            let pid = gitems[k as int].project_id@;
                            assert(!views_has(dv, pid)) by {
                                if views_has(dv, pid) {
                                    let w = choose|w: int| 0 <= w < dv.len() && dv[w] == pid;
                                    assert(mid.projects@[w].id@ == pid);
                                    assert(snap.projects@[w].id == mid.projects@[w].id);
                                    assert(docs_have(snap.projects@, pid));
                                }
                            };
                            assert(!item_taken(bitems, dv, gitems, k as int));
                            assert(import_item_ids_after(bitems, dv, gitems, k as int + 1)
                                == import_item_ids_after(bitems, dv, gitems, k as int));
                            assert forall|t: int| 0 <= t < mid.projects@.len() implies (
                            #[trigger] self.projects@[t]).items@ == mid.projects@[t].items@
                                + taken_items_for(
                                bitems,
                                dv,
                                gitems,
                                mid.projects@[t].id@,
                                k as int + 1,
                            ) by {
                                assert(taken_items_for(
                                    bitems,
                                    dv,
                                    gitems,
                                    mid.projects@[t].id@,
                                    k as int + 1,
                                ) == taken_items_for(
                                    bitems,
                                    dv,
                                    gitems,
                                    mid.projects@[t].id@,
                                    k as int,
                                ));
                            };
                            if hyp {
                                if rows_have(grows, gitems[k as int].project_id@) {
                                    let t = choose|t: int|
                                        0 <= t < grows.len() && grows[t].id@ == gitems[
                                        k as int].project_id@;
                                    assert(mid.projects@[t].id == grows[t].id);
                                    assert(snap.projects@[t].id == mid.projects@[t].id);
                                    assert(snap.projects@[t].id@ == gitems[k as int].project_id@);
                                    assert(snap.has_doc(gitems[k as int].project_id@));
                                    assert(false);
                                }
                            }
                        }
                    },
                }
            }
            proof {
                if hyp && !(exists|i2: int, k2: int|
                    0 <= i2 < snap.projects@.len() && 0 <= k2 < snap.projects@[i2].items@.len()
                        && snap.projects@[i2].items@[k2].id@ == gitems[k as int].id@)
                    && !snap.has_doc(gitems[k as int].project_id@) {
                    assert forall|i2: int, k2: int|
                        0 <= i2 < self.projects@.len() && 0 <= k2
                            < self.projects@[i2].items@.len() implies exists|jj: int|
                        0 <= jj < k as int + 1 && gitems[jj].id@ == (
                    #[trigger] self.projects@[i2].items@[k2]).id@ by {
                        let jj = choose|jj: int|
                            0 <= jj < k as int && gitems[jj].id@
                                == self.projects@[i2].items@[k2].id@;
                        assert(0 <= jj < k as int + 1 && gitems[jj].id@
                            == self.projects@[i2].items@[k2].id@);
                    };
                }
            }
            k = k + 1;
        }

        let ghost mid2 = *self;
        let ghost bcards = doc_card_id_views(mid2.projects@, mid2.projects@.len() as int);
        proof {
            assert(import_card_ids_after(bcards, dv, gcards, 0) == bcards);
            assert forall|x: Seq<char>| #[trigger] views_has(
                import_card_ids_after(bcards, dv, gcards, 0),
                x,
            ) <==> store_cards_have(self.projects@, x) by {
                lemma_doc_card_id_views_has(mid2.projects@, mid2.projects@.len() as int, x);
            };
            assert forall|t: int| 0 <= t < mid2.projects@.len() implies ({
                let want = taken_cards_for(bcards, dv, gcards, mid2.projects@[t].id@, 0);
                &&& (#[trigger] self.projects@[t]).file_cards@.len() == mid2.projects@[
                t].file_cards@.len() + want.len()
                &&& (forall|k2: int|
                    0 <= k2 < mid2.projects@[t].file_cards@.len()
                        ==> self.projects@[t].file_cards@[k2] == mid2.projects@[t].file_cards@[k2])
                &&& (forall|k2: int|
                    0 <= k2 < want.len() ==> card_from_row(
                        self.projects@[t].file_cards@[mid2.projects@[t].file_cards@.len() + k2],
                        #[trigger] want[k2],
                    ))
            }) by {
                assert(taken_cards_for(bcards, dv, gcards, mid2.projects@[t].id@, 0).len() == 0);
            };
            assert(gcards.take(0) =~= Seq::<FileCardRow>::empty());
            if hyp {
                assert forall|t: int| 0 <= t < grows.len() implies ({
                    let d0 = #[trigger] mid2.projects@[t];
                    &&& d0.id == grows[t].id
                    &&& d0.name == grows[t].name
                    &&& d0.description == grows[t].description
                    &&& d0.metadata.mdv() == grows[t].metadata.mdv()
                    &&& d0.created_at == grows[t].created_at
                    &&& d0.updated_at == grows[t].updated_at
                    &&& d0.todos@.len() == 0
                    &&& d0.items@ == items_for(gitems, grows[t].id@, gitems.len() as int)
                    &&& d0.file_cards@.len() == 0
                }) by {
                    let dm = mid.projects@[t];
                    assert(dm.id == grows[t].id);
                    assert(mid2.projects@[t].id == dm.id);
                    assert(mid2.projects@[t].metadata == dm.metadata);
                    assert(mid2.projects@[t].todos == dm.todos);
                    assert(mid2.projects@[t].file_cards == dm.file_cards);
                    assert(mid2.projects@[t].items@ == items_for(
                        gitems,
                        grows[t].id@,
                        in_items@.len() as int,
                    ));
                };
            }
        }

        // Cards: attach each to its project in live form, skipping
        // duplicates and orphans.
        let mut c: usize = 0;
        while c < in_cards.len()
            invariant
                self.wf(),
                c <= in_cards@.len(),
                in_cards@ == gcards,
                grows.len() + gitems.len() + gcards.len() <= i32::MAX as int,
                self.metadata == mid2.metadata,
                self.last_metadata_mtime == mid2.last_metadata_mtime,
                self.projects@.len() == mid2.projects@.len(),
                forall|t: int|
                    0 <= t < mid2.projects@.len() ==> ({
                        let d0 = #[trigger] mid2.projects@[t];
                        let d1 = self.projects@[t];
                        &&& d1.id == d0.id
                        &&& d1.name == d0.name
                        &&& d1.description == d0.description
                        &&& d1.metadata == d0.metadata
                        &&& d1.todos == d0.todos
                        &&& d1.items == d0.items
                        &&& d1.created_at == d0.created_at
                        &&& d1.updated_at == d0.updated_at
                    }),
                0 <= file_cards_imported as int,
                0 <= skipped as int,
                file_cards_imported as int <= c as int,
                skipped as int <= grows.len() + gitems.len() + c as int,
                items_imported as int + skipped as int + file_cards_imported as int == grows.len()
                    - projects_imported as int + gitems.len() + c as int,
                0 <= projects_imported as int <= grows.len(),
                0 <= items_imported as int <= gitems.len(),
                dv == doc_id_views(mid.projects@),
                bcards == doc_card_id_views(mid2.projects@, mid2.projects@.len() as int),
                forall|t: int|
                    0 <= t < mid2.projects@.len() ==> (#[trigger] mid2.projects@[t]).id
                        == mid.projects@[t].id,
                mid2.projects@.len() == mid.projects@.len(),
                forall|x: Seq<char>|
                    #[trigger] views_has(
                        import_card_ids_after(bcards, dv, gcards, c as int),
                        x,
                    ) <==> store_cards_have(self.projects@, x),
                forall|t: int|
                    0 <= t < mid2.projects@.len() ==> ({
                        let want = taken_cards_for(
                            bcards,
                            dv,
                            gcards,
                            mid2.projects@[t].id@,
                            c as int,
                        );
                        &&& (#[trigger] self.projects@[t]).file_cards@.len() == mid2.projects@[
                        t].file_cards@.len() + want.len()
                        &&& (forall|k2: int|
                            0 <= k2 < mid2.projects@[t].file_cards@.len()
                                ==> self.projects@[t].file_cards@[k2] == mid2.projects@[
                            t].file_cards@[k2])
                        &&& (forall|k2: int|
                            0 <= k2 < want.len() ==> card_from_row(
                                self.projects@[t].file_cards@[mid2.projects@[
                                t].file_cards@.len() + k2],
                                #[trigger] want[k2],
                            ))
                    }),
                file_cards_imported as int == import_card_ids_after(
                    bcards,
                    dv,
                    gcards,
                    c as int,
                ).len() - bcards.len(),
                skipped as int == (grows.len() - projects_imported as int) + (gitems.len() - (
                import_item_ids_after(bitems, dv, gitems, gitems.len() as int).len()
                    - bitems.len())) + (c as int - (import_card_ids_after(
                    bcards,
                    dv,
                    gcards,
                    c as int,
                ).len() - bcards.len())),
                items_imported as int == import_item_ids_after(
                    bitems,
                    dv,
                    gitems,
                    gitems.len() as int,
                ).len() - bitems.len(),
                projects_imported as int == import_ids_after(bi, grows, grows.len() as int).len()
                    - bi.len(),
                hyp ==> (row_ids_unique(grows) && card_row_ids_unique(gcards)),
                hyp ==> (mid2.projects@.len() == grows.len() && projects_imported as int
                    == grows.len() && self.metadata.project_ids@.len() == grows.len()),
                hyp ==> (forall|t: int|
                    0 <= t < grows.len() ==> self.metadata.project_ids@[t]@ == grows[t].id@),
                hyp ==> (forall|t: int|
                    0 <= t < grows.len() ==> ({
                        let d0 = #[trigger] mid2.projects@[t];
                        &&& d0.id == grows[t].id
                        &&& d0.name == grows[t].name
                        &&& d0.description == grows[t].description
                        &&& d0.metadata.mdv() == grows[t].metadata.mdv()
                        &&& d0.created_at == grows[t].created_at
                        &&& d0.updated_at == grows[t].updated_at
                        &&& d0.todos@.len() == 0
                        &&& d0.items@ == items_for(gitems, grows[t].id@, gitems.len() as int)
                    })),
                hyp ==> items_imported as int == items_matched(gitems, grows, gitems.len() as int),
                hyp ==> (forall|t: int|
                    0 <= t < grows.len() ==> ({
                        let d1 = #[trigger] self.projects@[t];
                        let want = cards_for(gcards, grows[t].id@, c as int);
                        &&& d1.file_cards@.len() == want.len()
                        &&& (forall|k2: int|
                            0 <= k2 < d1.file_cards@.len() ==> card_from_row(
                                #[trigger] d1.file_cards@[k2],
                                want[k2],
                            ))
                    })),
                hyp ==> file_cards_imported as int == cards_matched(gcards, grows, c as int),
                hyp ==> skipped as int == (gitems.len() - items_matched(
                    gitems,
                    grows,
                    gitems.len() as int,
                )) + (c as int - cards_matched(gcards, grows, c as int)),
                hyp ==> doc_card_ids_from(self.projects@, gcards, c as int),
            decreases in_cards@.len() - c,
        {
            let ghost snap = *self;
            let cr = &in_cards[c];
            if self.any_card_with_id(cr.id.as_str()) {
                skipped = skipped + 1;
                proof {
                    assert(store_cards_have(snap.projects@, gcards[c as int].id@));
                    assert(views_has(
                        import_card_ids_after(bcards, dv, gcards, c as int),
                        gcards[c as int].id@,
                    ));
                    assert(import_card_ids_after(bcards, dv, gcards, c as int + 1)
                        == import_card_ids_after(bcards, dv, gcards, c as int));
                    assert(!card_taken(bcards, dv, gcards, c as int));
                    assert forall|t: int| 0 <= t < mid2.projects@.len() implies taken_cards_for(
                        bcards,
                        dv,
                        gcards,
                        (#[trigger] mid2.projects@[t]).id@,
                        c as int + 1,
                    ) == taken_cards_for(bcards, dv, gcards, mid2.projects@[t].id@, c as int) by {
                        assert(!card_taken(bcards, dv, gcards, c as int));
                    };
                    if hyp {
                        let (wi, wk) = choose|wi: int, wk: int|
                            0 <= wi < snap.projects@.len() && 0 <= wk
                                < snap.projects@[wi].file_cards@.len()
                                && snap.projects@[wi].file_cards@[wk].id@ == gcards[c as int].id@;
                        let wj = choose|wj: int|
                            0 <= wj < c as int && gcards[wj].id@
                                == snap.projects@[wi].file_cards@[wk].id@;
                        assert(gcards[wj].id@ == gcards[c as int].id@);
                        assert(false);
                    }
                }
            } else {
                let found = self.find_doc(cr.project_id.as_str());
                match found {
                    Some(i) => {
                        proof {
                            lemma_docs_at_unique(snap.projects@, cr.project_id@, i as int);
                        }
                        let fc = FileCard {
                            id: cr.id.clone(),
                            project_id: cr.project_id.clone(),
                            filename: cr.filename.clone(),
                            file_path: cr.file_path.clone(),
                            position_x: cr.position_x,
                            position_y: cr.position_y,
                            is_expanded: cr.is_expanded == 1,
                            is_minimized: cr.is_minimized == 1,
                            z_index: cr.z_index,
                            created_at: cr.created_at.clone(),
                            updated_at: cr.updated_at.clone(),
                        };
                        let mut pd = self.projects.remove(i);
                        pd.file_cards.push(fc);
                        self.projects.insert(i, pd);
                        file_cards_imported = file_cards_imported + 1;
                        proof {
                            assert(self.projects@ =~= snap.projects@.update(
                                i as int,
                                self.projects@[i as int],
                            ));
                            let p0 = snap.projects@[i as int];
                            let p1 = self.projects@[i as int];
                            assert(p1.file_cards@ =~= p0.file_cards@.push(p1.file_cards@.last()));
                            assert(card_from_row(p1.file_cards@.last(), gcards[c as int]));
                            assert forall|k2: int| 0 <= k2 < p1.file_cards@.len() implies p1.file_cards@[k2].project_id@
                                == p1.id@ by {
                                if k2 < p1.file_cards@.len() - 1 {
                                    assert(p0.file_cards@[k2].project_id@ == p0.id@);
                                }
                            };
                            lemma_wf_doc_update(snap, *self, i as int);
                            let x0 = gcards[c as int].id@;
                            let pid = gcards[c as int].project_id@;
                            let prev_ids = import_card_ids_after(bcards, dv, gcards, c as int);
                            let after1 = import_card_ids_after(bcards, dv, gcards, c as int + 1);
                            assert(!store_cards_have(snap.projects@, x0));
                            assert(!views_has(prev_ids, x0));
                            assert(views_has(dv, pid)) by {
                                assert(snap.projects@[i as int].id == mid2.projects@[i as int].id);
                                assert(mid2.projects@[i as int].id == mid.projects@[i as int].id);
                                assert(dv[i as int] == mid.projects@[i as int].id@);
                            };
                            assert(card_taken(bcards, dv, gcards, c as int));
                            assert(after1 == prev_ids.push(x0));
                            assert forall|t: int| 0 <= t < mid2.projects@.len() implies ({
                                let want = taken_cards_for(
                                    bcards,
                                    dv,
                                    gcards,
                                    (#[trigger] mid2.projects@[t]).id@,
                                    c as int + 1,
                                );
                                &&& self.projects@[t].file_cards@.len() == mid2.projects@[
                                t].file_cards@.len() + want.len()
                                &&& (forall|k2: int|
                                    0 <= k2 < mid2.projects@[t].file_cards@.len()
                                        ==> self.projects@[t].file_cards@[k2] == mid2.projects@[
                                    t].file_cards@[k2])
                                &&& (forall|k2: int|
                                    0 <= k2 < want.len() ==> card_from_row(
                                        self.projects@[t].file_cards@[mid2.projects@[
                                        t].file_cards@.len() + k2],
                                        #[trigger] want[k2],
                                    ))
                            }) by {
                                let w0 = taken_cards_for(
                                    bcards,
                                    dv,
                                    gcards,
                                    mid2.projects@[t].id@,
                                    c as int,
                                );
                                if t == i as int {
                                    assert(snap.projects@[t].id == mid2.projects@[t].id);
                                    assert(mid2.projects@[t].id@ == pid);
                                    assert(taken_cards_for(bcards, dv, gcards, pid, c as int + 1)
                                        == taken_cards_for(bcards, dv, gcards, pid, c as int).push(
                                        gcards[c as int],
                                    ));
                                    assert(snap.projects@[t].file_cards@.len() == mid2.projects@[
                                    t].file_cards@.len() + w0.len());
                                    assert forall|k2: int|
                                        0 <= k2 < w0.push(gcards[c as int]).len() implies card_from_row(
                                        self.projects@[t].file_cards@[mid2.projects@[
                                        t].file_cards@.len() + k2],
                                        #[trigger] w0.push(gcards[c as int])[k2],
                                    ) by {
                                        if k2 < w0.len() {
                                            assert(self.projects@[t].file_cards@[mid2.projects@[
                                            t].file_cards@.len() + k2] == snap.projects@[
                                            t].file_cards@[mid2.projects@[t].file_cards@.len()
                                                + k2]);
                                            assert(card_from_row(
                                                snap.projects@[t].file_cards@[mid2.projects@[
                                                t].file_cards@.len() + k2],
                                                w0[k2],
                                            ));
                                        } else {
                                            assert(self.projects@[t].file_cards@[mid2.projects@[
                                            t].file_cards@.len() + k2]
                                                == p1.file_cards@.last());
                                        }
                                    };
                                } else {
                                    assert(self.projects@[t] == snap.projects@[t]);
                                    if t < i as int {
                                        assert(snap.projects@[t].id@ != snap.projects@[
                                        i as int].id@);
                                    } else {
                                        assert(snap.projects@[i as int].id@ != snap.projects@[
                                        t].id@);
                                    }
                                    assert(snap.projects@[t].id == mid2.projects@[t].id);
                                    assert(mid2.projects@[t].id@ != pid);
                                    assert(taken_cards_for(
                                        bcards,
                                        dv,
                                        gcards,
                                        mid2.projects@[t].id@,
                                        c as int + 1,
                                    ) == w0);
                                }
                            };
                            assert forall|x: Seq<char>| #[trigger] views_has(after1, x)
                                <==> store_cards_have(self.projects@, x) by {
                                if x == x0 {
                                    assert(after1[after1.len() - 1] == x0);
                                    assert(views_has(after1, x));
                                    assert(self.projects@[i as int].file_cards@[self.projects@[
                                    i as int].file_cards@.len() - 1].id@ == x0);
                                    assert(store_cards_have(self.projects@, x));
                                } else {
                                    if views_has(after1, x) {
                                        let w = choose|w: int|
                                            0 <= w < after1.len() && after1[w] == x;
                                        assert(w < after1.len() - 1);
                                        assert(prev_ids[w] == x);
                                        assert(views_has(prev_ids, x));
                                        assert(store_cards_have(snap.projects@, x));
                                        let (wi, wk) = choose|wi: int, wk: int|
                                            0 <= wi < snap.projects@.len() && 0 <= wk
                                                < snap.projects@[wi].file_cards@.len()
                                                && snap.projects@[wi].file_cards@[wk].id@ == x;
                                        if wi == i as int {
                                            assert(self.projects@[wi].file_cards@[wk].id@ == x);
                                        } else {
                                            assert(self.projects@[wi] == snap.projects@[wi]);
                                            assert(self.projects@[wi].file_cards@[wk].id@ == x);
                                        }
                                        assert(store_cards_have(self.projects@, x));
                                    }
                                    if store_cards_have(self.projects@, x) {
                                        let (wi, wk) = choose|wi: int, wk: int|
                                            0 <= wi < self.projects@.len() && 0 <= wk
                                                < self.projects@[wi].file_cards@.len()
                                                && self.projects@[wi].file_cards@[wk].id@ == x;
                                        if wi == i as int && wk == self.projects@[
                                        i as int].file_cards@.len() - 1 {
                                            assert(x == x0);
                                            assert(false);
                                        } else {
                                            if wi == i as int {
                                                assert(snap.projects@[wi].file_cards@[wk].id@
                                                    == x);
                                            } else {
                                                assert(self.projects@[wi] == snap.projects@[wi]);
                                                assert(snap.projects@[wi].file_cards@[wk].id@
                                                    == x);
                                            }
                                            assert(store_cards_have(snap.projects@, x));
                                            assert(views_has(prev_ids, x));
                                            let w = choose|w: int|
                                                0 <= w < prev_ids.len() && prev_ids[w] == x;
                                            assert(after1[w] == x);
                                            assert(views_has(after1, x));
                                        }
                                    }
                                }
                            };
                            if hyp {
                                assert(mid2.projects@[i as int].id == grows[i as int].id);
                                assert(snap.projects@[i as int].id == mid2.projects@[
                                i as int].id);
                                assert(grows[i as int].id@ == p0.id@);
                                assert(rows_have(grows, gcards[c as int].project_id@));
                                assert forall|t: int| 0 <= t < grows.len() implies ({
                                    let d1 = #[trigger] self.projects@[t];
                                    let want = cards_for(gcards, grows[t].id@, c as int + 1);
                                    &&& d1.file_cards@.len() == want.len()
                                    &&& (forall|k2: int|
                                        0 <= k2 < d1.file_cards@.len() ==> card_from_row(
                                            #[trigger] d1.file_cards@[k2],
                                            want[k2],
                                        ))
                                }) by {
                                    if t == i as int {
                                        assert(cards_for(gcards, grows[t].id@, c as int + 1)
                                            == cards_for(gcards, grows[t].id@, c as int).push(
                                            gcards[c as int],
                                        ));
                                    } else {
                                        assert(grows[t].id@ != grows[i as int].id@);
                                        assert(self.projects@[t] == snap.projects@[t]);
                                        assert(cards_for(gcards, grows[t].id@, c as int + 1)
                                            == cards_for(gcards, grows[t].id@, c as int));
                                    }
                                };
                                assert forall|i2: int, k2: int|
                                    0 <= i2 < self.projects@.len() && 0 <= k2
                                        < self.projects@[i2].file_cards@.len() implies exists|
                                    jj: int,
                                |
                                    0 <= jj < c as int + 1 && gcards[jj].id@ == (
                                #[trigger] self.projects@[i2].file_cards@[k2]).id@ by {
                                    if i2 == i as int && k2 == self.projects@[i2].file_cards@.len()
                                        - 1 {
                                        assert(gcards[c as int].id@
                                            == self.projects@[i2].file_cards@[k2].id@);
                                    } else {
                                        assert(snap.projects@[i2].file_cards@[k2]
                                            == self.projects@[i2].file_cards@[k2]);
                                        let jj = choose|jj: int|
                                            0 <= jj < c as int && gcards[jj].id@
                                                == snap.projects@[i2].file_cards@[k2].id@;
                                        assert(gcards[jj].id@
                                            == self.projects@[i2].file_cards@[k2].id@);
                                    }
                                };
                            }
                        }
                    },
                    None => {
                        skipped = skipped + 1;
                        proof {
                            let pid = gcards[c as int].project_id@;
                            assert(!views_has(dv, pid)) by {
                                if views_has(dv, pid) {
                                    let w = choose|w: int| 0 <= w < dv.len() && dv[w] == pid;
                                    assert(mid.projects@[w].id@ == pid);
                                    assert(mid2.projects@[w].id == mid.projects@[w].id);
                                    assert(snap.projects@[w].id == mid2.projects@[w].id);
                                    assert(docs_have(snap.projects@, pid));
                                }
                            };
                            assert(!card_taken(bcards, dv, gcards, c as int));
                            assert(import_card_ids_after(bcards, dv, gcards, c as int + 1)
                                == import_card_ids_after(bcards, dv, gcards, c as int));
                            assert forall|t: int| 0 <= t < mid2.projects@.len() implies taken_cards_for(
                                bcards,
                                dv,
                                gcards,
                                (#[trigger] mid2.projects@[t]).id@,
                                c as int + 1,
                            ) == taken_cards_for(
                                bcards,
                                dv,
                                gcards,
                                mid2.projects@[t].id@,
                                c as int,
                            ) by {
                                assert(!card_taken(bcards, dv, gcards, c as int));
                            };
                            if hyp {
                                if rows_have(grows, gcards[c as int].project_id@) {
                                    let t = choose|t: int|
                                        0 <= t < grows.len() && grows[t].id@ == gcards[
                                        c as int].project_id@;
                                    assert(mid2.projects@[t].id == grows[t].id);
                                    assert(snap.projects@[t].id == mid2.projects@[t].id);
                                    assert(snap.projects@[t].id@ == gcards[c as int].project_id@);
                                    assert(snap.has_doc(gcards[c as int].project_id@));
                                    assert(false);
                                }
                            }
                        }
                    },
                }
            }
            proof {
                if hyp && !(exists|i2: int, k2: int|
                    0 <= i2 < snap.projects@.len() && 0 <= k2
                        < snap.projects@[i2].file_cards@.len()
                        && snap.projects@[i2].file_cards@[k2].id@ == gcards[c as int].id@)
                    && !snap.has_doc(gcards[c as int].project_id@) {
                    assert forall|i2: int, k2: int|
                        0 <= i2 < self.projects@.len() && 0 <= k2
                            < self.projects@[i2].file_cards@.len() implies exists|jj: int|
                        0 <= jj < c as int + 1 && gcards[jj].id@ == (
                    #[trigger] self.projects@[i2].file_cards@[k2]).id@ by {
                        let jj = choose|jj: int|
                            0 <= jj < c as int && gcards[jj].id@
                                == self.projects@[i2].file_cards@[k2].id@;
                        assert(0 <= jj < c as int + 1 && gcards[jj].id@
                            == self.projects@[i2].file_cards@[k2].id@);
                    };
                }
            }
            c = c + 1;
        }

        proof {
            let bd = if replace {
                Seq::<ProjectData>::empty()
            } else {
                old(self).projects@
            };
            let ebi = if replace {
                Seq::<Seq<char>>::empty()
            } else {
                id_views(old(self).metadata.project_ids@)
            };
            assert(base.projects@ =~= bd);
            assert(bi =~= ebi);
            let ids1 = import_ids_after(ebi, grows, grows.len() as int);
            assert(ids1 == import_ids_after(bi, grows, grows.len() as int));
            let edv = doc_id_views(bd) + ids1.skip(ebi.len() as int);
            assert(edv == dv) by {
                assert(doc_id_views(base.projects@) == doc_id_views(bd));
            };
            let ebitems = doc_item_id_views(bd, bd.len() as int);
            let ebcards = doc_card_id_views(bd, bd.len() as int);
            assert(ebitems == bitems) by {
                lemma_doc_item_id_views_prefix(mid.projects@, bd, bd.len() as int);
                lemma_doc_item_id_views_pad(
                    mid.projects@,
                    bd.len() as int,
                    mid.projects@.len() as int,
                );
            };
            assert(ebcards == bcards) by {
                assert forall|t: int| 0 <= t < bd.len() implies (
                #[trigger] mid2.projects@[t]).file_cards == bd[t].file_cards by {
                    assert(mid2.projects@[t].file_cards == mid.projects@[t].file_cards);
                    assert(mid.projects@[t] == base.projects@[t]);
                };
                lemma_doc_card_id_views_prefix(mid2.projects@, bd, bd.len() as int);
                assert forall|t: int|
                    bd.len() <= t < mid2.projects@.len() implies (
                #[trigger] mid2.projects@[t]).file_cards@.len() == 0 by {
                    assert(mid2.projects@[t].file_cards == mid.projects@[t].file_cards);
                    assert(mid.projects@[t].file_cards@.len() == 0);
                };
                lemma_doc_card_id_views_pad(
                    mid2.projects@,
                    bd.len() as int,
                    mid2.projects@.len() as int,
                );
            };
            assert forall|t: int| 0 <= t < bd.len() implies ({
                let d0 = #[trigger] bd[t];
                let d1 = self.projects@[t];
                let wantc = taken_cards_for(ebcards, edv, gcards, d0.id@, gcards.len() as int);
                &&& d1.id == d0.id
                &&& d1.name == d0.name
                &&& d1.description == d0.description
                &&& d1.metadata == d0.metadata
                &&& d1.todos == d0.todos
                &&& d1.created_at == d0.created_at
                &&& d1.updated_at == d0.updated_at
                &&& d1.items@ == d0.items@ + taken_items_for(
                    ebitems,
                    edv,
                    gitems,
                    d0.id@,
                    gitems.len() as int,
                )
                &&& d1.file_cards@.len() == d0.file_cards@.len() + wantc.len()
                &&& (forall|k2: int|
                    0 <= k2 < d0.file_cards@.len() ==> d1.file_cards@[k2] == d0.file_cards@[k2])
                &&& (forall|k2: int|
                    0 <= k2 < wantc.len() ==> card_from_row(
                        d1.file_cards@[d0.file_cards@.len() + k2],
                        #[trigger] wantc[k2],
                    ))
            }) by {
                let dm = mid.projects@[t];
                let dm2 = mid2.projects@[t];
                let d1 = self.projects@[t];
                assert(dm == base.projects@[t]);
                assert(dm2.id == dm.id && dm2.name == dm.name && dm2.description == dm.description
                    && dm2.metadata == dm.metadata && dm2.todos == dm.todos && dm2.created_at
                    == dm.created_at && dm2.updated_at == dm.updated_at && dm2.file_cards
                    == dm.file_cards);
                assert(d1.id == dm2.id && d1.name == dm2.name && d1.description == dm2.description
                    && d1.metadata == dm2.metadata && d1.todos == dm2.todos && d1.created_at
                    == dm2.created_at && d1.updated_at == dm2.updated_at && d1.items == dm2.items);
                assert(dm2.items@ == dm.items@ + taken_items_for(
                    bitems,
                    dv,
                    gitems,
                    dm.id@,
                    gitems.len() as int,
                ));
                assert(bd[t].id@ == dm.id@);
                assert(d1.file_cards@.len() == dm2.file_cards@.len() + taken_cards_for(
                    bcards,
                    dv,
                    gcards,
                    dm2.id@,
                    gcards.len() as int,
                ).len());
            };
            if hyp {
                assert(gdata.projects@ == grows);
                assert(gdata.items@ == gitems);
                assert(data_cards(gdata) == gcards);
                assert forall|t: int| 0 <= t < grows.len() implies imported_doc(
                    self.projects@[t],
                    #[trigger] grows[t],
                    gdata,
                ) by {
                    let d0 = mid2.projects@[t];
                    let d1 = self.projects@[t];
                    assert(d1.id == d0.id && d1.name == d0.name && d1.description
                        == d0.description && d1.metadata == d0.metadata && d1.todos == d0.todos
                        && d1.items == d0.items && d1.created_at == d0.created_at && d1.updated_at
                        == d0.updated_at);
                    assert(d0.id == grows[t].id);
                    assert(d0.items@ == items_for(gitems, grows[t].id@, gitems.len() as int));
                    assert(d1.file_cards@.len() == cards_for(
                        gcards,
                        grows[t].id@,
                        in_cards@.len() as int,
                    ).len());
                };
            }
        }
        Ok(
            ImportResult { projects_imported, items_imported, file_cards_imported, skipped },
        )
    }
}


/// What a successful item creation did: `it` is the new item, built
/// from the arguments with id `idv` at time `ts`, appended to the
/// project `pid` whose update time is refreshed; nothing else changed.
pub open spec fn item_created(
    pre: JsonStore,
    post: JsonStore,
    pid: Seq<char>,
    idv: Seq<char>,
    ts: Seq<char>,
    item_type: ItemType,
    title: Seq<char>,
    content: Seq<char>,
    ide_type: Option<String>,
    remote_ide_type: Option<String>,
    coding_agent_type: Option<CodingAgentType>,
    coding_agent_args: Option<String>,
    coding_agent_env: Option<String>,
    command_mode: Option<CommandMode>,
    command_cwd: Option<String>,
    command_host: Option<String>,
    it: Item,
) -> bool {
    let i = pre.doc_at(pid);
    let p0 = pre.projects@[i];
    let p1 = post.projects@[i];
    &&& pre.has_doc(pid)
    &&& it.id@ == idv
    &&& it.project_id@ == pid
    &&& it.item_type == item_type
    &&& it.title@ == title
    &&& it.content@ == content
    &&& it.ide_type == ide_type
    &&& it.remote_ide_type == remote_ide_type
    &&& it.coding_agent_type == coding_agent_type
    &&& it.coding_agent_args == coding_agent_args
    &&& it.coding_agent_env == coding_agent_env
    &&& it.command_mode == command_mode
    &&& it.command_cwd == command_cwd
    &&& it.command_host == command_host
    &&& it.order as int == next_item_order(p0.items@)
    &&& it.created_at@ == ts
    &&& it.updated_at@ == ts
    &&& p1.items@ == p0.items@.push(it)
    &&& post.metadata == pre.metadata
    &&& post.last_metadata_mtime == pre.last_metadata_mtime
    &&& post.projects@.len() == pre.projects@.len()
    &&& (forall|k: int|
        0 <= k < pre.projects@.len() && k != i ==> post.projects@[k] == pre.projects@[k])
    &&& p1.id == p0.id
    &&& p1.name == p0.name
    &&& p1.description == p0.description
    &&& p1.metadata == p0.metadata
    &&& p1.todos == p0.todos
    &&& p1.file_cards == p0.file_cards
    &&& p1.created_at == p0.created_at
    &&& p1.updated_at@ == ts
}

/// What a successful todo creation did.
pub open spec fn todo_created(
    pre: JsonStore,
    post: JsonStore,
    pid: Seq<char>,
    idv: Seq<char>,
    ts: Seq<char>,
    content: Seq<char>,
    indent_level: i32,
    td: TodoItem,
) -> bool {
    let i = pre.doc_at(pid);
    let p0 = pre.projects@[i];
    let p1 = post.projects@[i];
    &&& pre.has_doc(pid)
    &&& td.id@ == idv
    &&& td.project_id@ == pid
    &&& td.content@ == content
    &&& td.completed == false
    &&& td.order as int == next_todo_order(p0.todos@)
    &&& td.indent_level == indent_level
    &&& td.created_at@ == ts
    &&& td.updated_at@ == ts
    &&& td.completed_at is None
    &&& p1.todos@ == p0.todos@.push(td)
    &&& post.metadata == pre.metadata
    &&& post.last_metadata_mtime == pre.last_metadata_mtime
    &&& post.projects@.len() == pre.projects@.len()
    &&& (forall|k: int|
        0 <= k < pre.projects@.len() && k != i ==> post.projects@[k] == pre.projects@[k])
    &&& p1.id == p0.id
    &&& p1.name == p0.name
    &&& p1.description == p0.description
    &&& p1.metadata == p0.metadata
    &&& p1.items == p0.items
    &&& p1.file_cards == p0.file_cards
    &&& p1.created_at == p0.created_at
    &&& p1.updated_at@ == ts
}

/// What a successful file-card creation did.
pub open spec fn card_created(
    pre: JsonStore,
    post: JsonStore,
    pid: Seq<char>,
    idv: Seq<char>,
    ts: Seq<char>,
    filename: Seq<char>,
    file_path: Seq<char>,
    position_x: u64,
    position_y: u64,
    fc: FileCard,
) -> bool {
    let i = pre.doc_at(pid);
    let p0 = pre.projects@[i];
    let p1 = post.projects@[i];
    &&& pre.has_doc(pid)
    &&& fc.id@ == idv
    &&& fc.project_id@ == pid
    &&& fc.filename@ == filename
    &&& fc.file_path@ == file_path
    &&& fc.position_x == position_x
    &&& fc.position_y == position_y
    &&& fc.is_expanded == false
    &&& fc.is_minimized == false
    &&& fc.z_index as int == next_card_z(p0.file_cards@)
    &&& fc.created_at@ == ts
    &&& fc.updated_at@ == ts
    &&& p1.file_cards@ == p0.file_cards@.push(fc)
    &&& post.metadata == pre.metadata
    &&& post.last_metadata_mtime == pre.last_metadata_mtime
    &&& post.projects@.len() == pre.projects@.len()
    &&& (forall|k: int|
        0 <= k < pre.projects@.len() && k != i ==> post.projects@[k] == pre.projects@[k])
    &&& p1.id == p0.id
    &&& p1.name == p0.name
    &&& p1.description == p0.description
    &&& p1.metadata == p0.metadata
    &&& p1.items == p0.items
    &&& p1.todos == p0.todos
    &&& p1.created_at == p0.created_at
    &&& p1.updated_at@ == ts
}

/// What a successful project creation did: a fresh empty document with
/// id `idv`, stamped `ts`, appended together with its index entry, and
/// returned as `p`.
pub open spec fn project_created(
    pre: JsonStore,
    post: JsonStore,
    idv: Seq<char>,
    ts: Seq<char>,
    name: Seq<char>,
    description: Seq<char>,
    metadata: ProjectMetadata,
    p: Project,
) -> bool {
    let d = post.projects@.last();
    &&& !pre.index_has(idv)
    &&& post.metadata.version == pre.metadata.version
    &&& post.metadata.global_settings == pre.metadata.global_settings
    &&& post.last_metadata_mtime == pre.last_metadata_mtime
    &&& post.metadata.project_ids@.len() == pre.metadata.project_ids@.len() + 1
    &&& (forall|j: int|
        0 <= j < pre.metadata.project_ids@.len() ==> post.metadata.project_ids@[j]
            == pre.metadata.project_ids@[j])
    &&& post.metadata.project_ids@.last()@ == idv
    &&& post.projects@.len() == pre.projects@.len() + 1
    &&& (forall|i: int| 0 <= i < pre.projects@.len() ==> post.projects@[i] == pre.projects@[i])
    &&& d.id@ == idv
    &&& d.name@ == name
    &&& d.description@ == description
    &&& d.metadata == metadata
    &&& d.items@.len() == 0
    &&& d.todos@.len() == 0
    &&& d.file_cards@.len() == 0
    &&& d.created_at@ == ts
    &&& d.updated_at@ == ts
    &&& p.id@ == idv
    &&& p.name@ == name
    &&& p.description@ == description
    &&& p.metadata.mdv() == metadata.mdv()
    &&& p.created_at@ == ts
    &&& p.updated_at@ == ts
    &&& p.items is None
}

/// What a successful project-record update did: supplied fields
/// overwrite, the rest keep their values, the update time is `ts`,
/// children are untouched, and `p` is the stored record with items.
pub open spec fn project_updated(
    pre: JsonStore,
    post: JsonStore,
    id: Seq<char>,
    ts: Seq<char>,
    patch: ProjectPatch,
    p: Project,
) -> bool {
    let i = pre.doc_at(id);
    let p0 = pre.projects@[i];
    let p1 = post.projects@[i];
    &&& pre.has_doc(id)
    &&& post.metadata == pre.metadata
    &&& post.last_metadata_mtime == pre.last_metadata_mtime
    &&& post.projects@.len() == pre.projects@.len()
    &&& (forall|k: int|
        0 <= k < pre.projects@.len() && k != i ==> post.projects@[k] == pre.projects@[k])
    &&& p1.id == p0.id
    &&& p1.created_at == p0.created_at
    &&& p1.name == crate::update::spec_set(p0.name, patch.name)
    &&& p1.description == crate::update::spec_set(p0.description, patch.description)
    &&& (match patch.metadata {
        Some(m) => p1.metadata == m,
        None => p1.metadata == p0.metadata,
    })
    &&& p1.items == p0.items
    &&& p1.todos == p0.todos
    &&& p1.file_cards == p0.file_cards
    &&& p1.updated_at@ == ts
    &&& p.id == p1.id
    &&& p.name == p1.name
    &&& p.description == p1.description
    &&& p.metadata.mdv() == p1.metadata.mdv()
    &&& p.created_at == p1.created_at
    &&& p.updated_at == p1.updated_at
    &&& (p.items matches Some(v) && v@ == p1.items@)
}

/// What a successful item reorder did at time `ts` (see
/// `reorder_items_at`).
pub open spec fn items_reordered(
    pre: JsonStore,
    post: JsonStore,
    pid: Seq<char>,
    ids: Seq<String>,
    ts: Seq<char>,
) -> bool {
    let i = pre.doc_at(pid);
    let p0 = pre.projects@[i];
    let p1 = post.projects@[i];
    &&& pre.has_doc(pid)
    &&& post.metadata == pre.metadata
    &&& post.last_metadata_mtime == pre.last_metadata_mtime
    &&& post.projects@.len() == pre.projects@.len()
    &&& (forall|k: int|
        0 <= k < pre.projects@.len() && k != i ==> post.projects@[k] == pre.projects@[k])
    &&& p1.id == p0.id
    &&& p1.name == p0.name
    &&& p1.description == p0.description
    &&& p1.metadata == p0.metadata
    &&& p1.todos == p0.todos
    &&& p1.file_cards == p0.file_cards
    &&& p1.created_at == p0.created_at
    &&& p1.updated_at@ == ts
    &&& p1.items@.len() == p0.items@.len()
    &&& (reorder_covers_items(p0.items@, ids) ==> forall|t: int|
        0 <= t < ids.len() ==> item_renumbered(
            p0.items@[items_at(p0.items@, #[trigger] ids[t]@)],
            t,
            ts,
            p1.items@[t],
        ))
}

/// What a successful todo reorder did at time `ts` (see
/// `reorder_todos_at`).
pub open spec fn todos_reordered(
    pre: JsonStore,
    post: JsonStore,
    pid: Seq<char>,
    ids: Seq<String>,
    ts: Seq<char>,
) -> bool {
    let i = pre.doc_at(pid);
    let p0 = pre.projects@[i];
    let p1 = post.projects@[i];
    &&& pre.has_doc(pid)
    &&& post.metadata == pre.metadata
    &&& post.last_metadata_mtime == pre.last_metadata_mtime
    &&& post.projects@.len() == pre.projects@.len()
    &&& (forall|k: int|
        0 <= k < pre.projects@.len() && k != i ==> post.projects@[k] == pre.projects@[k])
    &&& p1.id == p0.id
    &&& p1.name == p0.name
    &&& p1.description == p0.description
    &&& p1.metadata == p0.metadata
    &&& p1.items == p0.items
    &&& p1.file_cards == p0.file_cards
    &&& p1.created_at == p0.created_at
    &&& p1.updated_at@ == ts
    &&& p1.todos@.len() == p0.todos@.len()
    &&& (reorder_covers_todos(p0.todos@, ids) ==> forall|t: int|
        0 <= t < ids.len() ==> todo_renumbered(
            p0.todos@[todos_at(p0.todos@, #[trigger] ids[t]@)],
            t,
            ts,
            p1.todos@[t],
        ))
}

impl JsonStore {
    /// Creates a project with a fresh id and the current time.  The
    /// vanishingly unlikely id collision is reported as an error and
    /// changes nothing.
    pub fn create_project(&mut self, name: &str, description: &str, metadata: ProjectMetadata) -> (
        r: Result<Project, String>)
        requires
            old(self).wf(),
        ensures
            final(self).wf(),
            r is Err ==> *final(self) == *old(self) && old(self).metadata.project_ids@.len() > 0,
            r matches Ok(p) ==> p.id@.len() == 36 && p.created_at@ == p.updated_at@ && (exists|
                ts: Seq<char>,
            |
                project_created(
                    *old(self),
                    *final(self),
                    p.id@,
                    ts,
                    name@,
                    description@,
                    metadata,
                    p,
                )),
    {
        let ghost gmeta = metadata;
        let id = crate::clock::fresh_id();
        let now = crate::clock::now_rfc3339();
        if let Some(_j) = self.find_index(id.as_str()) {
            proof {
                assert(old(self).metadata.project_ids@.len() > 0);
            }
            return Err("id collision on project creation".to_owned());
        }
        let p = self.create_project_at(id.as_str(), now.as_str(), name, description, metadata);
        proof {
            assert(project_created(
                *old(self),
                *self,
                p.id@,
                now@,
                name@,
                description@,
                gmeta,
                p,
            ));
        }
        Ok(p)
    }

    /// Updates a project's own record at the current time.
    pub fn update_project(
        &mut self,
        id: &str,
        name: Option<String>,
        description: Option<String>,
        metadata: Option<ProjectMetadata>,
    ) -> (r: Result<Option<Project>, String>)
        requires
            old(self).wf(),
        ensures
            final(self).wf(),
            r matches Ok(o) && (o is None <==> !old(self).has_doc(id@)) && (o is None ==> *final(self) == *old(self)) && (o matches Some(p) ==> exists|ts: Seq<char>|
                project_updated(
                    *old(self),
                    *final(self),
                    id@,
                    ts,
                    (ProjectPatch { name, description, metadata }),
                    p,
                )),
    {
        let ghost gpatch = ProjectPatch { name, description, metadata };
        let now = crate::clock::now_rfc3339();
        let o = self.update_project_at(id, now.as_str(), ProjectPatch { name, description, metadata });
        match &o {
            Some(p) => {
                proof {
                    assert(project_updated(*old(self), *self, id@, now@, gpatch, *p));
                }
            },
            None => {},
        }
        Ok(o)
    }

    /// Creates an item with a fresh id and the current time.
    pub fn create_item(
        &mut self,
        project_id: &str,
        item_type: ItemType,
        title: &str,
        content: &str,
        ide_type: Option<String>,
        remote_ide_type: Option<String>,
        coding_agent_type: Option<CodingAgentType>,
        coding_agent_args: Option<String>,
        coding_agent_env: Option<String>,
        command_mode: Option<CommandMode>,
        command_cwd: Option<String>,
        command_host: Option<String>,
    ) -> (r: Result<Item, String>)
        requires
            old(self).wf(),
        ensures
            final(self).wf(),
            r is Err <==> (!old(self).has_doc(project_id@) || next_item_order(
                old(self).projects@[old(self).doc_at(project_id@)].items@,
            ) > i32::MAX as int),
            r is Err ==> *final(self) == *old(self),
            r matches Ok(it) ==> it.id@.len() == 36 && it.created_at@ == it.updated_at@ && (exists|
                ts: Seq<char>,
            |
                item_created(
                    *old(self),
                    *final(self),
                    project_id@,
                    it.id@,
                    ts,
                    item_type,
                    title@,
                    content@,
                    ide_type,
                    remote_ide_type,
                    coding_agent_type,
                    coding_agent_args,
                    coding_agent_env,
                    command_mode,
                    command_cwd,
                    command_host,
                    it,
                )),
    {
        let ghost g_ide = ide_type;
        let ghost g_remote = remote_ide_type;
        let ghost g_agent = coding_agent_type;
        let ghost g_args = coding_agent_args;
        let ghost g_env = coding_agent_env;
        let ghost g_mode = command_mode;
        let ghost g_cwd = command_cwd;
        let ghost g_host = command_host;
        let id = crate::clock::fresh_id();
        let now = crate::clock::now_rfc3339();
        let r = self.create_item_at(
            project_id,
            id.as_str(),
            now.as_str(),
            item_type,
            title,
            content,
            ide_type,
            remote_ide_type,
            coding_agent_type,
            coding_agent_args,
            coding_agent_env,
            command_mode,
            command_cwd,
            command_host,
        );
        match &r {
            Ok(it) => {
                proof {
                    assert(item_created(
                        *old(self),
                        *self,
                        project_id@,
                        it.id@,
                        now@,
                        item_type,
                        title@,
                        content@,
                        g_ide,
                        g_remote,
                        g_agent,
                        g_args,
                        g_env,
                        g_mode,
                        g_cwd,
                        g_host,
                        *it,
                    ));
                }
            },
            Err(_) => {},
        }
        r
    }

    /// Updates an item at the current time.
    pub fn update_item(&mut self, id: &str, patch: &ItemPatch) -> (r: Result<
        Option<Item>,
        String,
    >)
        requires
            old(self).wf(),
        ensures
            final(self).wf(),
            r matches Ok(o) && (o is None <==> (forall|i: int, k: int|
                0 <= i < old(self).projects@.len() && 0 <= k
                    < old(self).projects@[i].items@.len() ==> old(self).projects@[i].items@[k].id@ != id@)) && (o is None ==> *final(self) == *old(self)) && (o matches Some(it) ==> exists|ts: Seq<char>|
                some_item_updated(*old(self), *final(self), id@, ts, *patch, it)),
    {
        let now = crate::clock::now_rfc3339();
        let o = self.update_item_at(id, now.as_str(), patch);
        match &o {
            Some(it) => {
                proof {
                    assert(some_item_updated(*old(self), *self, id@, now@, *patch, *it));
                }
            },
            None => {},
        }
        Ok(o)
    }

    /// Deletes an item at the current time.
    pub fn delete_item(&mut self, id: &str) -> (r: Result<bool, String>)
        requires
            old(self).wf(),
        ensures
            final(self).wf(),
            r matches Ok(b) && (!b <==> (forall|i: int, k: int|
                0 <= i < old(self).projects@.len() && 0 <= k
                    < old(self).projects@[i].items@.len() ==> old(self).projects@[i].items@[k].id@ != id@)) && (!b ==> *final(self) == *old(self)) && (b ==> exists|ts: Seq<char>|
                some_item_deleted(*old(self), *final(self), id@, ts)),
    {
        let now = crate::clock::now_rfc3339();
        let b = self.delete_item_at(id, now.as_str());
        proof {
            if b {
                assert(some_item_deleted(*old(self), *self, id@, now@));
            }
        }
        Ok(b)
    }

    /// Renormalizes item order at the current time.
    pub fn reorder_items(&mut self, project_id: &str, item_ids: Vec<String>) -> (r: Result<
        (),
        String,
    >)
        requires
            old(self).wf(),
        ensures
            final(self).wf(),
            r is Ok <==> (old(self).has_doc(project_id@) && item_ids@.len() <= i32::MAX as int),
            r is Err ==> *final(self) == *old(self),
            r is Ok ==> exists|ts: Seq<char>|
                items_reordered(*old(self), *final(self), project_id@, item_ids@, ts),
    {
        if item_ids.len() > (i32::MAX as usize) {
            return Err("too many items to reorder".to_owned());
        }
        let now = crate::clock::now_rfc3339();
        let r = self.reorder_items_at(project_id, &item_ids, now.as_str());
        proof {
            if r is Ok {
                assert(items_reordered(*old(self), *self, project_id@, item_ids@, now@));
            }
        }
        r
    }

    /// Creates a file card with a fresh id and the current time.
    pub fn create_file_card(
        &mut self,
        project_id: &str,
        filename: &str,
        file_path: &str,
        position_x: u64,
        position_y: u64,
    ) -> (r: Result<FileCard, String>)
        requires
            old(self).wf(),
        ensures
            final(self).wf(),
            r is Err <==> (!old(self).has_doc(project_id@) || next_card_z(
                old(self).projects@[old(self).doc_at(project_id@)].file_cards@,
            ) > i32::MAX as int),
            r is Err ==> *final(self) == *old(self),
            r matches Ok(fc) ==> fc.id@.len() == 36 && fc.created_at@ == fc.updated_at@ && (exists|
                ts: Seq<char>,
            |
                card_created(
                    *old(self),
                    *final(self),
                    project_id@,
                    fc.id@,
                    ts,
                    filename@,
                    file_path@,
                    position_x,
                    position_y,
                    fc,
                )),
    {
        let id = crate::clock::fresh_id();
        let now = crate::clock::now_rfc3339();
        let r = self.create_file_card_at(
            project_id,
            id.as_str(),
            now.as_str(),
            filename,
            file_path,
            position_x,
            position_y,
        );
        match &r {
            Ok(fc) => {
                proof {
                    assert(card_created(
                        *old(self),
                        *self,
                        project_id@,
                        fc.id@,
                        now@,
                        filename@,
                        file_path@,
                        position_x,
                        position_y,
                        *fc,
                    ));
                }
            },
            Err(_) => {},
        }
        r
    }

    /// Updates a file card at the current time.
    pub fn update_file_card(&mut self, id: &str, patch: &FileCardPatch) -> (r: Result<
        Option<FileCard>,
        String,
    >)
        requires
            old(self).wf(),
        ensures
            final(self).wf(),
            r matches Ok(o) && (o is None <==> (forall|i: int, k: int|
                0 <= i < old(self).projects@.len() && 0 <= k
                    < old(self).projects@[i].file_cards@.len() ==> old(self).projects@[i].file_cards@[k].id@ != id@)) && (o is None ==> *final(self) == *old(self)) && (o matches Some(fc) ==> exists|ts: Seq<char>|
                some_card_updated(*old(self), *final(self), id@, ts, *patch, fc)),
    {
        let now = crate::clock::now_rfc3339();
        let o = self.update_file_card_at(id, now.as_str(), patch);
        match &o {
            Some(fc) => {
                proof {
                    assert(some_card_updated(*old(self), *self, id@, now@, *patch, *fc));
                }
            },
            None => {},
        }
        Ok(o)
    }

    /// Deletes a file card at the current time.
    pub fn delete_file_card(&mut self, id: &str) -> (r: Result<bool, String>)
        requires
            old(self).wf(),
        ensures
            final(self).wf(),
            r matches Ok(b) && (!b <==> (forall|i: int, k: int|
                0 <= i < old(self).projects@.len() && 0 <= k
                    < old(self).projects@[i].file_cards@.len() ==> old(self).projects@[i].file_cards@[k].id@ != id@)) && (!b ==> *final(self) == *old(self)) && (b ==> exists|ts: Seq<char>|
                some_card_deleted(*old(self), *final(self), id@, ts)),
    {
        let now = crate::clock::now_rfc3339();
        let b = self.delete_file_card_at(id, now.as_str());
        proof {
            if b {
                assert(some_card_deleted(*old(self), *self, id@, now@));
            }
        }
        Ok(b)
    }

    /// Creates a todo with a fresh id and the current time.
    pub fn create_todo(&mut self, project_id: &str, content: &str, indent_level: i32) -> (r:
        Result<TodoItem, String>)
        requires
            old(self).wf(),
        ensures
            final(self).wf(),
            r is Err <==> (!old(self).has_doc(project_id@) || next_todo_order(
                old(self).projects@[old(self).doc_at(project_id@)].todos@,
            ) > i32::MAX as int),
            r is Err ==> *final(self) == *old(self),
            r matches Ok(td) ==> td.id@.len() == 36 && td.created_at@ == td.updated_at@ && (exists|
                ts: Seq<char>,
            |
                todo_created(
                    *old(self),
                    *final(self),
                    project_id@,
                    td.id@,
                    ts,
                    content@,
                    indent_level,
                    td,
                )),
    {
        let id = crate::clock::fresh_id();
        let now = crate::clock::now_rfc3339();
        let r = self.create_todo_at(project_id, id.as_str(), now.as_str(), content, indent_level);
        match &r {
            Ok(td) => {
                proof {
                    assert(todo_created(
                        *old(self),
                        *self,
                        project_id@,
                        td.id@,
                        now@,
                        content@,
                        indent_level,
                        *td,
                    ));
                }
            },
            Err(_) => {},
        }
        r
    }

    /// Updates a todo at the current time.
    pub fn update_todo(&mut self, id: &str, patch: &TodoPatch) -> (r: Result<
        Option<TodoItem>,
        String,
    >)
        requires
            old(self).wf(),
        ensures
            final(self).wf(),
            r matches Ok(o) && (o is None <==> (forall|i: int, k: int|
                0 <= i < old(self).projects@.len() && 0 <= k
                    < old(self).projects@[i].todos@.len() ==> old(self).projects@[i].todos@[k].id@
                    != id@)) && (o is None ==> *final(self) == *old(self)) && (o matches Some(td) ==> exists|ts: Seq<char>|
                some_todo_updated(*old(self), *final(self), id@, ts, *patch, td)),
    {
        let now = crate::clock::now_rfc3339();
        let o = self.update_todo_at(id, now.as_str(), patch);
        match &o {
            Some(td) => {
                proof {
                    assert(some_todo_updated(*old(self), *self, id@, now@, *patch, *td));
                }
            },
            None => {},
        }
        Ok(o)
    }

    /// Deletes a todo at the current time.
    pub fn delete_todo(&mut self, id: &str) -> (r: Result<bool, String>)
        requires
            old(self).wf(),
        ensures
            final(self).wf(),
            r matches Ok(b) && (!b <==> (forall|i: int, k: int|
                0 <= i < old(self).projects@.len() && 0 <= k
                    < old(self).projects@[i].todos@.len() ==> old(self).projects@[i].todos@[k].id@
                    != id@)) && (!b ==> *final(self) == *old(self)) && (b ==> exists|ts: Seq<char>|
                some_todo_deleted(*old(self), *final(self), id@, ts)),
    {
        let now = crate::clock::now_rfc3339();
        let b = self.delete_todo_at(id, now.as_str());
        proof {
            if b {
                assert(some_todo_deleted(*old(self), *self, id@, now@));
            }
        }
        Ok(b)
    }

    /// Renormalizes todo order at the current time.
    pub fn reorder_todos(&mut self, project_id: &str, todo_ids: Vec<String>) -> (r: Result<
        (),
        String,
    >)
        requires
            old(self).wf(),
        ensures
            final(self).wf(),
            r is Ok <==> (old(self).has_doc(project_id@) && todo_ids@.len() <= i32::MAX as int),
            r is Err ==> *final(self) == *old(self),
            r is Ok ==> exists|ts: Seq<char>|
                todos_reordered(*old(self), *final(self), project_id@, todo_ids@, ts),
    {
        if todo_ids.len() > (i32::MAX as usize) {
            return Err("too many todos to reorder".to_owned());
        }
        let now = crate::clock::now_rfc3339();
        let r = self.reorder_todos_at(project_id, &todo_ids, now.as_str());
        proof {
            if r is Ok {
                assert(todos_reordered(*old(self), *self, project_id@, todo_ids@, now@));
            }
        }
        r
    }

    /// Exports data stamped with the current time.
    pub fn export_all_data(&self, selection: Option<&Vec<String>>) -> (r: Result<
        ExportData,
        String,
    >)
        requires
            self.wf(),
        ensures
            r matches Ok(e) && ({
                &&& e.version@ == "1.0"@
                &&& (selection is None ==> {
                    &&& e.projects@.len() == self.projects@.len()
                    &&& (forall|t: int|
                        0 <= t < self.projects@.len() ==> row_of(
                            e.projects@[t],
                            #[trigger] self.projects@[t],
                        ))
                    &&& e.items@ == concat_items(self.projects@, self.projects@.len() as int)
                    &&& (e.file_cards matches Some(cv) && cv@.len() == concat_cards(
                        self.projects@,
                        self.projects@.len() as int,
                    ).len() && (forall|k: int|
                        0 <= k < cv@.len() ==> card_row_of(
                            #[trigger] cv@[k],
                            concat_cards(self.projects@, self.projects@.len() as int)[k],
                        )))
                })
                &&& (selection matches Some(ids) ==> ({
                    let sel = selected_docs(self.projects@, ids@, ids@.len() as int);
                    &&& e.projects@.len() == sel.len()
                    &&& (forall|t: int|
                        0 <= t < sel.len() ==> row_of(e.projects@[t], #[trigger] sel[t]))
                    &&& e.items@ == concat_items(sel, sel.len() as int)
                    &&& (e.file_cards matches Some(cv) && cv@.len() == concat_cards(
                        sel,
                        sel.len() as int,
                    ).len() && (forall|k: int|
                        0 <= k < cv@.len() ==> card_row_of(
                            #[trigger] cv@[k],
                            concat_cards(sel, sel.len() as int)[k],
                        )))
                }))
            }),
    {
        let now = crate::clock::now_rfc3339();
        self.export_all_data_at(selection, now.as_str())
    }

    /// Imports an envelope; any mode word other than "replace" merges.
    pub fn import_data(&mut self, data: ImportData, mode: &str) -> (r: Result<
        ImportResult,
        String,
    >)
        requires
            old(self).wf(),
        ensures
            final(self).wf(),
            r is Ok <==> data.projects@.len() + data.items@.len() + data_cards(data).len()
                <= i32::MAX as int,
            r is Err ==> *final(self) == *old(self),
            r matches Ok(res) ==> ((clean_envelope(data) && (mode@ == "replace"@ || (old(self).projects@.len() == 0 && old(self).metadata.project_ids@.len() == 0))) ==> ({
                let rows = data.projects@;
                &&& final(self).projects@.len() == rows.len()
                &&& (forall|t: int|
                    0 <= t < rows.len() ==> imported_doc(
                        final(self).projects@[t],
                        #[trigger] rows[t],
                        data,
                    ))
                &&& res.projects_imported as int == rows.len()
                &&& res.skipped as int == (data.items@.len() - items_matched(
                    data.items@,
                    rows,
                    data.items@.len() as int,
                )) + (data_cards(data).len() - cards_matched(
                    data_cards(data),
                    rows,
                    data_cards(data).len() as int,
                ))
            })),
            r matches Ok(res) ==> import_general_post(
                *old(self),
                *final(self),
                data,
                mode@ == "replace"@,
                res,
            ),
    {
        let n_rows = data.projects.len();
        let n_items = data.items.len();
        let n_cards = match &data.file_cards {
            Some(v) => v.len(),
            None => 0,
        };
        if (n_rows as u128) + (n_items as u128) + (n_cards as u128) > (i32::MAX as u128) {
            return Err("envelope too large to import".to_owned());
        }
        let replace = str_eq(mode, "replace");
        self.import_data_at(data, replace)
    }
}



} // verus!

//! Verified persistence core for a project-organizer application.
//!
//! The crate models the storage engine of the application: the entity
//! model shared by both storage backends, the document store that keeps
//! one record per project, the pure update semantics of the relational
//! backend, the one-shot relational-to-document migration procedure, and
//! the settings file that selects the data directory.
//!
//! All decision logic lives here and is verified.  Disk reads and writes,
//! JSON encoding of whole documents, and the SQL statements of the
//! relational backend are performed by the surrounding application, which
//! hands this crate plain values and persists what it returns.

mod clock;
pub mod laws;
pub mod migration;
pub mod models;
pub mod order;
pub mod relational;
pub mod settings;
pub mod store;
pub mod update;

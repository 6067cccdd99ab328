//! Verified core of a vocabulary manager: words with translations organized
//! into a folder tree, plus a quiz subsystem, all kept consistent by a
//! transactional client layered over a pluggable document store.

pub mod client;
pub mod clock;
pub mod errors;
pub mod folder;
pub mod ident;
pub mod memstore;
pub mod pagination;
pub mod quiz;
pub mod sqlbuilder;
pub mod stats;
pub mod store;
pub mod text;
pub mod word;

pub use client::WordBankClient;
pub use errors::WordBankError;
pub use folder::{Folder, FolderContent, FolderQueryOptions, FolderUpdateOptions, ParentFilter, ParentUpdate};
pub use memstore::{MemContext, MemStore};
pub use pagination::{PageResult, PaginationOptionalOptions, PaginationOptions};
pub use store::DB;
pub use word::{Translation, Word, WordQueryOptions, WordType, WordUpdateOptions};

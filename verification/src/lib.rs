//! A persistent cross-file symbol index: definitions and usages of source
//! symbols are kept in an ordered key-value store under three key families
//! and found again by short path.
//!
//! - `path` turns the path of a file into the components that lead the path
//!   of every symbol of that file.
//! - `model` holds the symbol records, `codec` their layout as records of
//!   the store.
//! - `keys` is the key schema, `store` the store itself, seen through its
//!   text keys.
//! - `index` holds the operations: adding and removing a file, and the
//!   queries for definitions and usages.
//! - `laws`, `path_laws`, `codec_laws`, `query_laws` and `state_laws` prove
//!   what holds of an index that is filled and emptied file by file.
//! - `snippets`, `cmdline`, `closeness`, `path_order` and `declarations`
//!   hold helpers of the tools round the index: tickets in a reply,
//!   placeholders in a command line, and the search for the declaration
//!   that a usage means.

pub mod closeness;
pub mod cmdline;
pub mod codec;
pub mod codec_laws;
pub mod declarations;
pub mod index;
pub mod keys;
pub mod laws;
pub mod model;
pub mod path;
pub mod path_laws;
pub mod path_order;
pub mod query_laws;
pub mod snippets;
pub mod state_laws;
pub mod store;
pub mod text;

pub use crate::closeness::FilePathIterator;
pub use crate::declarations::{find_decl_by_caller_guid, find_decl_by_name};
pub use crate::index::{
    alt_index_init,
    connect_usages,
    definitions,
    doc_add,
    doc_remove,
    doc_symbols,
    dump_database,
    usages,
};
pub use crate::model::{AltDefinition, Point, Range, SymbolType, Usage};
pub use crate::path::filesystem_path_to_double_colon_path;
pub use crate::snippets::{PatchAction, TicketToApply};
pub use crate::store::{AltIndex, IndexError};

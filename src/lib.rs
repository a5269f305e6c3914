//! A flat, searchable index of the files under a directory tree.
//!
//! Each file is tagged from its path with a project label and a set of
//! keywords; a query is answered by exact AND-matching of its words
//! against those keywords.

mod indexer;
mod item;
mod search;
mod settings;
mod tagger;
mod text;

pub use indexer::{
    EntryModel, IndexBuilder, WalkEntry, admitted, entry_items, ignored, index_of, is_ignored,
    item_of, lemma_build_order_free, lemma_ignored_below, lemma_index_never_ignored,
    lemma_index_paths_unique, make_item,
};
pub use item::{FSItem, ItemModel, copy_strings, item_views};
pub use search::{
    fts_search, lemma_search_is_and, matches_all, matches_tokens, query_tokens, search_result,
    search_tokens,
};
pub use settings::{Settings, SettingsModel};
pub use tagger::{
    first_project, keyword_tags, lemma_first_project_is_first, lemma_keyword_tags_exact,
    matches_ci, set_key_words, set_project,
};
pub use text::{extension_of, has_substring, lower_of, views, words_of};

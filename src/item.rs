//! The index entry: one regular file and the tags derived from its path.

use crate::text::views;
use vstd::prelude::*;

verus! {

/// One regular file found during a walk.
#[derive(Clone, Debug, PartialEq, Eq, Hash)]
pub struct FSItem {
    /// The extension without its dot; empty where the file has none.
    pub file_extension: String,
    /// The base name, extension included.
    pub file_name: String,
    /// The path as the walk reached it.
    pub file_path: String,
    /// The size in bytes.
    pub file_size: u64,
    /// The matched keywords, then the project label, then the file name.
    pub key_words: Vec<String>,
    /// The first configured project found in the path; empty where none is.
    pub project: String,
}

/// The value of an index entry.
pub struct ItemModel {
    pub extension: Seq<char>,
    pub name: Seq<char>,
    pub path: Seq<char>,
    pub size: u64,
    pub keywords: Seq<Seq<char>>,
    pub project: Seq<char>,
}

impl View for FSItem {
    type V = ItemModel;

    open spec fn view(&self) -> ItemModel {
        ItemModel {
            extension: self.file_extension@,
            name: self.file_name@,
            path: self.file_path@,
            size: self.file_size,
            keywords: views(self.key_words@),
            project: self.project@,
        }
    }
}

/// The values of a sequence of index entries.
pub open spec fn item_views(v: Seq<FSItem>) -> Seq<ItemModel> {
    v.map_values(|e: FSItem| e@)
}

/// A fresh vector holding the same strings.
pub fn copy_strings(v: &Vec<String>) -> (r: Vec<String>)
    ensures
        r@ == v@,
{
    let mut r: Vec<String> = Vec::new();
    let mut i: usize = 0;
    while i < v.len()
        invariant
            i <= v@.len(),
            r@ == v@.subrange(0, i as int),
        decreases v@.len() - i,
    {
        r.push(v[i].clone());
        i = i + 1;
    }
    assert(r@ == v@.subrange(0, v@.len() as int));
    r
}

impl FSItem {
    /// A fresh entry with the same value.
    pub fn duplicate(&self) -> (r: FSItem)
        ensures
            r@ == self@,
    {
        FSItem {
            file_extension: self.file_extension.clone(),
            file_name: self.file_name.clone(),
            file_path: self.file_path.clone(),
            file_size: self.file_size,
            key_words: copy_strings(&self.key_words),
            project: self.project.clone(),
        }
    }
}

} // verus!

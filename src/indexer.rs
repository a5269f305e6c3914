//! Building the index, one walked entry at a time.
//!
//! The walk itself reads the file system and stays with the caller: it hands
//! each entry it reaches to [`IndexBuilder::visit`], and does not descend into
//! a directory for which `visit` answers `false`.

use crate::item::{FSItem, ItemModel, item_views};
use crate::settings::{Settings, SettingsModel};
use crate::tagger::{first_project, keyword_tags, set_key_words, set_project};
use crate::text::{contains_str, extension_of, has_substring, path_extension, views};
use vstd::prelude::*;

verus! {

/// One entry reached by a directory walk.
#[derive(Clone, Debug)]
pub struct WalkEntry {
    /// The path as the walk reached it.
    pub path: String,
    /// The last segment of the path.
    pub file_name: String,
    /// Whether the entry is a regular file.
    pub is_file: bool,
    /// Its size in bytes, or `None` where its metadata could not be read.
    pub size: Option<u64>,
}

/// The value of a walked entry.
pub struct EntryModel {
    pub path: Seq<char>,
    pub file_name: Seq<char>,
    pub is_file: bool,
    pub size: Option<u64>,
}

impl View for WalkEntry {
    type V = EntryModel;

    open spec fn view(&self) -> EntryModel {
        EntryModel {
            path: self.path@,
            file_name: self.file_name@,
            is_file: self.is_file,
            size: self.size,
        }
    }
}

/// Some pattern of `patterns` occurs in `path`.
pub open spec fn ignored(path: Seq<char>, patterns: Seq<Seq<char>>) -> bool {
    exists|i: int| 0 <= i < patterns.len() && has_substring(path, #[trigger] patterns[i])
}

/// The index entry of the file at `path`.
pub open spec fn item_of(path: Seq<char>, file_name: Seq<char>, size: u64, s: SettingsModel) -> ItemModel {
    let project = first_project(path, s.projects);
    ItemModel {
        extension: extension_of(path),
        name: file_name,
        path,
        size,
        keywords: keyword_tags(path, s.key_words, project, file_name),
        project,
    }
}

/// A walked entry gives an index entry: a regular file whose size could be
/// read, and whose path no ignore pattern matches.
pub open spec fn admitted(e: EntryModel, s: SettingsModel) -> bool {
    &&& !ignored(e.path, s.ignore_patterns)
    &&& e.is_file
    &&& e.size is Some
}

/// What one walked entry adds to the index.
pub open spec fn entry_items(e: EntryModel, s: SettingsModel) -> Seq<ItemModel> {
    if admitted(e, s) {
        seq![item_of(e.path, e.file_name, e.size->Some_0, s)]
    } else {
        seq![]
    }
}

/// The index built from the entries of a walk, in the order they came.
pub open spec fn index_of(entries: Seq<EntryModel>, s: SettingsModel) -> Seq<ItemModel>
    decreases entries.len(),
{
    if entries.len() == 0 {
        seq![]
    } else {
        index_of(entries.drop_last(), s) + entry_items(entries.last(), s)
    }
}

/// An ignore pattern that occurs in a directory's path occurs in the path of
/// everything below it.
pub proof fn lemma_ignored_below(dir: Seq<char>, path: Seq<char>, patterns: Seq<Seq<char>>)
    requires
        ignored(dir, patterns),
        dir.is_prefix_of(path),
    ensures
        ignored(path, patterns),
{
    let i = choose|i: int| 0 <= i < patterns.len() && has_substring(dir, #[trigger] patterns[i]);
    let p = patterns[i];
    let k = choose|k: int| 0 <= k && k + p.len() <= dir.len() && #[trigger] dir.subrange(k, k + p.len()) == p;
    assert(path.subrange(k, k + p.len()) =~= dir.subrange(k, k + p.len()));
    assert(has_substring(path, patterns[i]));
}

/// No entry of a built index has a path that an ignore pattern matches, nor
/// a path below a directory that an ignore pattern matches.
pub proof fn lemma_index_never_ignored(entries: Seq<EntryModel>, s: SettingsModel, dir: Seq<char>)
    ensures
        forall|k: int|
            0 <= k < index_of(entries, s).len() ==> !ignored(
                #[trigger] index_of(entries, s)[k].path,
                s.ignore_patterns,
            ),
        ignored(dir, s.ignore_patterns) ==> forall|k: int|
            0 <= k < index_of(entries, s).len() ==> !dir.is_prefix_of(
                #[trigger] index_of(entries, s)[k].path,
            ),
    decreases entries.len(),
{
    if entries.len() > 0 {
        lemma_index_never_ignored(entries.drop_last(), s, dir);
        let prev = index_of(entries.drop_last(), s);
        let added = entry_items(entries.last(), s);
        assert forall|k: int| 0 <= k < index_of(entries, s).len() implies !ignored(
            #[trigger] index_of(entries, s)[k].path,
            s.ignore_patterns,
        ) by {
            if k >= prev.len() {
                assert(index_of(entries, s)[k] == added[k - prev.len()]);
            } else {
                assert(index_of(entries, s)[k] == prev[k]);
            }
        }
    }
    if ignored(dir, s.ignore_patterns) {
        assert forall|k: int| 0 <= k < index_of(entries, s).len() implies !dir.is_prefix_of(
            #[trigger] index_of(entries, s)[k].path,
        ) by {
            if dir.is_prefix_of(index_of(entries, s)[k].path) {
                lemma_ignored_below(dir, index_of(entries, s)[k].path, s.ignore_patterns);
            }
        }
    }
}

/// Every entry of a built index is a walked path, and a walk that reaches
/// each path once builds an index in which no path stands twice.
pub proof fn lemma_index_paths_unique(entries: Seq<EntryModel>, s: SettingsModel)
    ensures
        forall|k: int|
            0 <= k < index_of(entries, s).len() ==> exists|j: int|
                0 <= j < entries.len() && entries[j].path == #[trigger] index_of(entries, s)[k].path,
        (forall|i: int, j: int|
            0 <= i < j < entries.len() ==> #[trigger] entries[i].path != #[trigger] entries[j].path)
            ==> forall|a: int, b: int|
            0 <= a < b < index_of(entries, s).len() ==> #[trigger] index_of(entries, s)[a].path
                != #[trigger] index_of(entries, s)[b].path,
    decreases entries.len(),
{
    if entries.len() > 0 {
        let rest = entries.drop_last();
        lemma_index_paths_unique(rest, s);
        let prev = index_of(rest, s);
        let idx = index_of(entries, s);
        assert forall|k: int| 0 <= k < idx.len() implies exists|j: int|
            0 <= j < entries.len() && entries[j].path == #[trigger] idx[k].path by {
            if k < prev.len() {
                assert(idx[k] == prev[k]);
                let j = choose|j: int| 0 <= j < rest.len() && rest[j].path == prev[k].path;
                assert(entries[j] == rest[j]);
            } else {
                assert(idx[k].path == entries[entries.len() - 1].path);
            }
        }
        if forall|i: int, j: int|
            0 <= i < j < entries.len() ==> #[trigger] entries[i].path != #[trigger] entries[j].path {
            assert forall|i: int, j: int|
                0 <= i < j < rest.len() implies #[trigger] rest[i].path != #[trigger] rest[j].path by {
                assert(rest[i] == entries[i] && rest[j] == entries[j]);
            }
            assert forall|a: int, b: int|
                0 <= a < b < idx.len() implies #[trigger] idx[a].path != #[trigger] idx[b].path by {
                assert(idx[a] == prev[a]);
                if b < prev.len() {
                    assert(idx[b] == prev[b]);
                } else {
                    assert(idx[b].path == entries.last().path);
                    let j = choose|j: int| 0 <= j < rest.len() && rest[j].path == #[trigger] prev[a].path;
                    assert(entries[j] == rest[j]);
                    assert(entries[j].path != entries[entries.len() - 1].path);
                }
            }
        }
    }
}

/// Taking one entry out of a walk takes out what it added to the index.
proof fn lemma_index_without(entries: Seq<EntryModel>, s: SettingsModel, k: int)
    requires
        0 <= k < entries.len(),
    ensures
        index_of(entries, s).to_multiset() == index_of(entries.remove(k), s).to_multiset().add(
            entry_items(entries[k], s).to_multiset(),
        ),
    decreases entries.len(),
{
    broadcast use vstd::seq_lib::lemma_multiset_commutative;
    let last = entries.last();
    let rest = entries.drop_last();
    if k == entries.len() - 1 {
        assert(entries.remove(k) =~= rest);
    } else {
        lemma_index_without(rest, s, k);
        assert(entries.remove(k).drop_last() =~= rest.remove(k));
        assert(entries.remove(k).last() == last);
        assert(rest[k] == entries[k]);
        let a = index_of(rest.remove(k), s).to_multiset();
        let b = entry_items(entries[k], s).to_multiset();
        let c = entry_items(last, s).to_multiset();
        assert(a.add(b).add(c) =~= a.add(c).add(b));
    }
}

/// The order in which a walk reaches the entries does not change the index
/// beyond the order of its entries: walks that reach the same entries build
/// indexes that hold the same entries, each as often.
pub proof fn lemma_build_order_free(e1: Seq<EntryModel>, e2: Seq<EntryModel>, s: SettingsModel)
    requires
        e1.to_multiset() == e2.to_multiset(),
    ensures
        index_of(e1, s).to_multiset() == index_of(e2, s).to_multiset(),
    decreases e1.len(),
{
    broadcast use vstd::seq_lib::group_to_multiset_ensures, vstd::seq_lib::lemma_multiset_commutative;
    if e1.len() == 0 {
        vstd::seq_lib::to_multiset_len(e1);
        vstd::seq_lib::to_multiset_len(e2);
        assert(e2.len() == 0);
        assert(e1 =~= e2);
    } else {
        let x = e1.last();
        let rest = e1.drop_last();
        assert(rest.push(x) =~= e1);
        assert(e1.to_multiset().count(x) > 0);
        assert(e2.contains(x));
        let k = choose|k: int| 0 <= k < e2.len() && e2[k] == x;
        assert(rest.to_multiset() =~= e2.remove(k).to_multiset());
        lemma_build_order_free(rest, e2.remove(k), s);
        lemma_index_without(e2, s, k);
    }
}

/// Whether some ignore pattern occurs in `path`.
pub fn is_ignored(path: &str, ignore_patterns: &Vec<String>) -> (r: bool)
    ensures
        r == ignored(path@, views(ignore_patterns@)),
{
    let mut i: usize = 0;
    while i < ignore_patterns.len()
        invariant
            i <= ignore_patterns@.len(),
            forall|j: int| 0 <= j < i ==> !has_substring(path@, #[trigger] ignore_patterns@[j]@),
        decreases ignore_patterns@.len() - i,
    {
        if contains_str(path, ignore_patterns[i].as_str()) {
            assert(views(ignore_patterns@)[i as int] == ignore_patterns@[i as int]@);
            return true;
        }
        i = i + 1;
    }
    assert forall|j: int| 0 <= j < ignore_patterns@.len() implies !has_substring(
        path@,
        #[trigger] views(ignore_patterns@)[j],
    ) by {
        assert(views(ignore_patterns@)[j] == ignore_patterns@[j]@);
    }
    false
}

/// The index entry of the regular file at `path`, tagged under `settings`.
pub fn make_item(path: &String, file_name: &String, file_size: u64, settings: &Settings) -> (r: FSItem)
    ensures
        r@ == item_of(path@, file_name@, file_size, settings@),
{
    let project = set_project(path.as_str(), &settings.projects);
    let key_words = set_key_words(path, &project, file_name, &settings.key_words);
    FSItem {
        file_extension: path_extension(path.as_str()),
        file_name: file_name.clone(),
        file_path: path.clone(),
        file_size,
        key_words,
        project,
    }
}

/// The index of one build, grown entry by entry as the walk goes.
pub struct IndexBuilder {
    settings: Settings,
    items: Vec<FSItem>,
    seen: Ghost<Seq<EntryModel>>,
}

impl IndexBuilder {
    /// The configuration of the build.
    pub closed spec fn config(&self) -> SettingsModel {
        self.settings@
    }

    /// The entries visited so far, in order.
    pub closed spec fn entries(&self) -> Seq<EntryModel> {
        self.seen@
    }

    /// The index built so far.
    pub closed spec fn items(&self) -> Seq<ItemModel> {
        item_views(self.items@)
    }

    /// The index is the one that the visited entries give.
    pub closed spec fn wf(&self) -> bool {
        item_views(self.items@) == index_of(self.seen@, self.settings@)
    }

    /// An empty index under `settings`.
    pub fn new(settings: Settings) -> (r: IndexBuilder)
        ensures
            r.wf(),
            r.config() == settings@,
            r.entries() == Seq::<EntryModel>::empty(),
            r.items() == Seq::<ItemModel>::empty(),
    {
        let r = IndexBuilder { settings, items: Vec::new(), seen: Ghost(Seq::empty()) };
        assert(item_views(r.items@) =~= Seq::<ItemModel>::empty());
        r
    }

    /// Takes in one entry of the walk; answers whether the walk may descend
    /// below it, which it may not where an ignore pattern matches its path.
    pub fn visit(&mut self, entry: &WalkEntry) -> (descend: bool)
        requires
            old(self).wf(),
        ensures
            final(self).wf(),
            final(self).config() == old(self).config(),
            final(self).entries() == old(self).entries().push(entry@),
            final(self).items() == old(self).items() + entry_items(entry@, old(self).config()),
            descend == !ignored(entry.path@, old(self).config().ignore_patterns),
    {
        let ghost before = self.seen@;
        let ghost old_items = item_views(self.items@);
        let ignore = is_ignored(entry.path.as_str(), &self.settings.ignore_patterns);
        if !ignore && entry.is_file {
            match entry.size {
                Some(size) => {
                    let item = make_item(&entry.path, &entry.file_name, size, &self.settings);
                    self.items.push(item);
                    assert(item_views(self.items@) =~= old_items + entry_items(entry@, self.settings@));
                },
                None => {
                    assert(item_views(self.items@) =~= old_items + entry_items(entry@, self.settings@));
                },
            }
        } else {
            assert(item_views(self.items@) =~= old_items + entry_items(entry@, self.settings@));
        }
        self.seen = Ghost(before.push(entry@));
        assert(self.seen@.drop_last() =~= before);
        !ignore
    }

    /// The number of entries in the index so far.
    pub fn len(&self) -> (r: usize)
        ensures
            r == self.items().len(),
    {
        self.items.len()
    }

    /// The finished index.
    pub fn finish(self) -> (r: Vec<FSItem>)
        requires
            self.wf(),
        ensures
            item_views(r@) == index_of(self.entries(), self.config()),
    {
        self.items
    }
}

} // verus!

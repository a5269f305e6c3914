//! Search: the entries whose keywords hold every word of a query.

use crate::item::{FSItem, ItemModel, item_views};
use crate::text::{lower_of, lowercase, split_words, views, words_of};
use vstd::prelude::*;

verus! {

/// Every token is one of the keywords, verbatim.
pub open spec fn matches_all(tokens: Seq<Seq<char>>, keywords: Seq<Seq<char>>) -> bool {
    forall|i: int| 0 <= i < tokens.len() ==> keywords.contains(#[trigger] tokens[i])
}

/// The entries of `items`, in their order, whose keywords hold every token.
pub open spec fn search_result(tokens: Seq<Seq<char>>, items: Seq<ItemModel>) -> Seq<ItemModel> {
    items.filter(|m: ItemModel| matches_all(tokens, m.keywords))
}

/// The tokens of a query: its words, in lowercase.
pub open spec fn query_tokens(query: Seq<char>) -> Seq<Seq<char>> {
    words_of(lower_of(query))
}

/// Filtering keeps a sequence whole where every element passes.
proof fn lemma_filter_keeps_all<A>(s: Seq<A>, pred: spec_fn(A) -> bool)
    requires
        forall|i: int| 0 <= i < s.len() ==> pred(#[trigger] s[i]),
    ensures
        s.filter(pred) == s,
    decreases s.len(),
{
    reveal(Seq::filter);
    if s.len() > 0 {
        lemma_filter_keeps_all(s.drop_last(), pred);
        assert(s.drop_last().push(s.last()) =~= s);
    }
}

/// A search returns exactly the entries of the index whose keywords hold
/// every token, and with no tokens it returns the whole index.
pub proof fn lemma_search_is_and(tokens: Seq<Seq<char>>, items: Seq<ItemModel>)
    ensures
        forall|m: ItemModel|
            #[trigger] search_result(tokens, items).contains(m) <==> (items.contains(m) && forall|
                t: Seq<char>,
            | #[trigger] tokens.contains(t) ==> m.keywords.contains(t)),
        tokens.len() == 0 ==> search_result(tokens, items) == items,
{
    let pred = |m: ItemModel| matches_all(tokens, m.keywords);
    let r = search_result(tokens, items);
    assert forall|m: ItemModel|
        #[trigger] r.contains(m) <==> (items.contains(m) && forall|t: Seq<char>|
            #[trigger] tokens.contains(t) ==> m.keywords.contains(t)) by {
        if r.contains(m) {
            items.lemma_filter_contains_rev(pred, m);
            let i = choose|i: int| 0 <= i < r.len() && r[i] == m;
            items.lemma_filter_pred(pred, i);
            assert forall|t: Seq<char>| #[trigger] tokens.contains(t) implies m.keywords.contains(t) by {
                let j = choose|j: int| 0 <= j < tokens.len() && tokens[j] == t;
                assert(m.keywords.contains(tokens[j]));
            }
        }
        if items.contains(m) && forall|t: Seq<char>|
            #[trigger] tokens.contains(t) ==> m.keywords.contains(t) {
            let i = choose|i: int| 0 <= i < items.len() && items[i] == m;
            assert forall|j: int| 0 <= j < tokens.len() implies m.keywords.contains(
                #[trigger] tokens[j],
            ) by {
                assert(tokens.contains(tokens[j]));
            }
            items.lemma_filter_contains(pred, i);
        }
    }
    if tokens.len() == 0 {
        lemma_filter_keeps_all(items, pred);
    }
}

/// Whether `token` is one of `key_words`, verbatim.
fn has_keyword(key_words: &Vec<String>, token: &String) -> (r: bool)
    ensures
        r == views(key_words@).contains(token@),
{
    let mut i: usize = 0;
    while i < key_words.len()
        invariant
            i <= key_words@.len(),
            forall|j: int| 0 <= j < i ==> key_words@[j]@ != token@,
        decreases key_words@.len() - i,
    {
        if key_words[i] == *token {
            assert(views(key_words@)[i as int] == token@);
            return true;
        }
        i = i + 1;
    }
    assert forall|j: int| 0 <= j < views(key_words@).len() implies views(key_words@)[j] != token@ by {
        assert(views(key_words@)[j] == key_words@[j]@);
    }
    false
}

/// Whether every token is one of the entry's keywords, verbatim.
pub fn matches_tokens(tokens: &Vec<String>, item: &FSItem) -> (r: bool)
    ensures
        r == matches_all(views(tokens@), item@.keywords),
{
    let mut i: usize = 0;
    while i < tokens.len()
        invariant
            i <= tokens@.len(),
            forall|j: int| 0 <= j < i ==> item@.keywords.contains(#[trigger] views(tokens@)[j]),
        decreases tokens@.len() - i,
    {
        if !has_keyword(&item.key_words, &tokens[i]) {
            assert(views(tokens@)[i as int] == tokens@[i as int]@);
            return false;
        }
        assert(views(tokens@)[i as int] == tokens@[i as int]@);
        i = i + 1;
    }
    true
}

/// The entries of `items`, in their order, whose keywords hold every one of
/// `tokens` verbatim.
pub fn search_tokens(tokens: &Vec<String>, items: &Vec<FSItem>) -> (r: Vec<FSItem>)
    ensures
        item_views(r@) == search_result(views(tokens@), item_views(items@)),
{
    let ghost ts = views(tokens@);
    let ghost all = item_views(items@);
    let ghost pred = |m: ItemModel| matches_all(ts, m.keywords);
    let mut r: Vec<FSItem> = Vec::new();
    let mut i: usize = 0;
    proof {
        reveal(Seq::filter);
    }
    while i < items.len()
        invariant
            i <= items@.len(),
            ts == views(tokens@),
            all == item_views(items@),
            pred == (|m: ItemModel| matches_all(ts, m.keywords)),
            item_views(r@) == all.subrange(0, i as int).filter(pred),
        decreases items@.len() - i,
    {
        let ghost before = item_views(r@);
        assert(all.subrange(0, i + 1).drop_last() =~= all.subrange(0, i as int));
        assert(all.subrange(0, i + 1).last() == items@[i as int]@);
        if matches_tokens(tokens, &items[i]) {
            r.push(items[i].duplicate());
            assert(item_views(r@) =~= before.push(items@[i as int]@));
        }
        reveal(Seq::filter);
        i = i + 1;
    }
    assert(all.subrange(0, i as int) =~= all);
    r
}

/// The entries of `items`, in their order, whose keywords hold every word of
/// `query` taken in lowercase; an empty query matches every entry.
pub fn fts_search(query: &str, items: &Vec<FSItem>) -> (r: Vec<FSItem>)
    ensures
        item_views(r@) == search_result(query_tokens(query@), item_views(items@)),
        query@.len() == 0 ==> item_views(r@) == item_views(items@),
{
    let lower_query = lowercase(query);
    let tokens = split_words(lower_query.as_str());
    let r = search_tokens(&tokens, items);
    proof {
        lemma_search_is_and(views(tokens@), item_views(items@));
    }
    r
}

} // verus!

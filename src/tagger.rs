//! Tagging: the project label and the keywords of a file, from its path.

use crate::text::{contains_str, has_substring, lower_of, lowercase, views};
use vstd::prelude::*;

verus! {

/// `ident` occurs in `path`, both taken in lowercase.
pub open spec fn matches_ci(path: Seq<char>, ident: Seq<char>) -> bool {
    has_substring(lower_of(path), lower_of(ident))
}

/// The first of `projects` that matches `path`; empty where none does.
pub open spec fn first_project(path: Seq<char>, projects: Seq<Seq<char>>) -> Seq<char>
    decreases projects.len(),
{
    if projects.len() == 0 {
        Seq::empty()
    } else if matches_ci(path, projects[0]) {
        projects[0]
    } else {
        first_project(path, projects.drop_first())
    }
}

/// The keywords of a file: those of `key_words` that match `path`, in their
/// order, then the project label, then the file name.
pub open spec fn keyword_tags(
    path: Seq<char>,
    key_words: Seq<Seq<char>>,
    project: Seq<char>,
    file_name: Seq<char>,
) -> Seq<Seq<char>> {
    key_words.filter(|k: Seq<char>| matches_ci(path, k)).push(project).push(file_name)
}

/// The project of a path is the first configured project that occurs in it,
/// case aside, and the empty string where none does.
pub proof fn lemma_first_project_is_first(path: Seq<char>, projects: Seq<Seq<char>>)
    ensures
        (forall|j: int| 0 <= j < projects.len() ==> !matches_ci(path, #[trigger] projects[j]))
            ==> first_project(path, projects) == Seq::<char>::empty(),
        forall|i: int|
            0 <= i < projects.len() && #[trigger] matches_ci(path, projects[i]) && (forall|j: int|
                0 <= j < i ==> !matches_ci(path, #[trigger] projects[j]))
                ==> first_project(path, projects) == projects[i],
    decreases projects.len(),
{
    if projects.len() > 0 {
        let tail = projects.drop_first();
        lemma_first_project_is_first(path, tail);
        if forall|j: int| 0 <= j < projects.len() ==> !matches_ci(path, #[trigger] projects[j]) {
            assert(forall|j: int| 0 <= j < tail.len() ==> tail[j] == projects[j + 1]);
            assert(!matches_ci(path, projects[0]));
        }
        assert forall|i: int|
            0 <= i < projects.len() && #[trigger] matches_ci(path, projects[i]) && (forall|j: int|
                0 <= j < i ==> !matches_ci(path, #[trigger] projects[j])) implies first_project(
            path,
            projects,
        ) == projects[i] by {
            if i > 0 {
                assert(!matches_ci(path, projects[0]));
                assert(tail[i - 1] == projects[i]);
                assert forall|j: int| 0 <= j < i - 1 implies !matches_ci(
                    path,
                    #[trigger] tail[j],
                ) by {
                    assert(tail[j] == projects[j + 1]);
                }
            }
        }
    }
}

/// The keywords of a file hold its project label and its name, and, before
/// them, exactly those configured keywords that occur in its path, case aside.
pub proof fn lemma_keyword_tags_exact(
    path: Seq<char>,
    key_words: Seq<Seq<char>>,
    project: Seq<char>,
    file_name: Seq<char>,
)
    ensures
        keyword_tags(path, key_words, project, file_name).contains(project),
        keyword_tags(path, key_words, project, file_name).contains(file_name),
        forall|k: Seq<char>|
            #![trigger keyword_tags(path, key_words, project, file_name).subrange(0, keyword_tags(path, key_words, project, file_name).len() - 2).contains(k)]
            keyword_tags(path, key_words, project, file_name).subrange(
                0,
                keyword_tags(path, key_words, project, file_name).len() - 2,
            ).contains(k) <==> (key_words.contains(k) && matches_ci(path, k)),
{
    let pred = |k: Seq<char>| matches_ci(path, k);
    let f = key_words.filter(pred);
    let t = keyword_tags(path, key_words, project, file_name);
    assert(t[t.len() - 2] == project);
    assert(t[t.len() - 1] == file_name);
    assert(t.subrange(0, t.len() - 2) =~= f);
    assert forall|k: Seq<char>| f.contains(k) <==> (key_words.contains(k) && matches_ci(path, k)) by {
        if f.contains(k) {
            key_words.lemma_filter_contains_rev(pred, k);
            let i = choose|i: int| 0 <= i < f.len() && f[i] == k;
            key_words.lemma_filter_pred(pred, i);
        }
        if key_words.contains(k) && matches_ci(path, k) {
            let i = choose|i: int| 0 <= i < key_words.len() && key_words[i] == k;
            key_words.lemma_filter_contains(pred, i);
        }
    }
}

/// The project label of a path: the first of `projects` that occurs in it,
/// case aside, or the empty string where none does.
pub fn set_project(path: &str, projects: &Vec<String>) -> (r: String)
    ensures
        r@ == first_project(path@, views(projects@)),
{
    let lower_path = lowercase(path);
    let ghost ps = views(projects@);
    let mut i: usize = 0;
    assert(ps.subrange(0, ps.len() as int) =~= ps);
    while i < projects.len()
        invariant
            i <= projects@.len(),
            ps == views(projects@),
            lower_path@ == lower_of(path@),
            first_project(path@, ps) == first_project(path@, ps.subrange(i as int, ps.len() as int)),
        decreases projects@.len() - i,
    {
        let ghost rest = ps.subrange(i as int, ps.len() as int);
        assert(rest[0] == projects@[i as int]@);
        let lower_project = lowercase(projects[i].as_str());
        if contains_str(lower_path.as_str(), lower_project.as_str()) {
            return projects[i].clone();
        }
        assert(rest.drop_first() =~= ps.subrange(i + 1, ps.len() as int));
        i = i + 1;
    }
    assert(ps.subrange(i as int, ps.len() as int).len() == 0);
    String::new()
}

/// The keywords of a file: those of `key_words` that occur in `path`, case
/// aside, in their order, then `project` and `file_name`.
pub fn set_key_words(path: &String, project: &String, file_name: &String, key_words: &Vec<String>) -> (r: Vec<String>)
    ensures
        views(r@) == keyword_tags(path@, views(key_words@), project@, file_name@),
{
    let lower_path = lowercase(path.as_str());
    let ghost ks = views(key_words@);
    let ghost pred = |k: Seq<char>| matches_ci(path@, k);
    let mut r: Vec<String> = Vec::new();
    let mut i: usize = 0;
    proof {
        reveal(Seq::filter);
    }
    while i < key_words.len()
        invariant
            i <= key_words@.len(),
            ks == views(key_words@),
            pred == (|k: Seq<char>| matches_ci(path@, k)),
            lower_path@ == lower_of(path@),
            views(r@) == ks.subrange(0, i as int).filter(pred),
        decreases key_words@.len() - i,
    {
        let ghost before = views(r@);
        assert(ks.subrange(0, i + 1).drop_last() =~= ks.subrange(0, i as int));
        assert(ks.subrange(0, i + 1).last() == key_words@[i as int]@);
        let lower_word = lowercase(key_words[i].as_str());
        if contains_str(lower_path.as_str(), lower_word.as_str()) {
            r.push(key_words[i].clone());
            assert(views(r@) =~= before.push(key_words@[i as int]@));
            assert(pred(ks[i as int]));
        } else {
            assert(!pred(ks[i as int]));
        }
        reveal(Seq::filter);
        assert(ks.subrange(0, i + 1).filter(pred) == if pred(ks[i as int]) {
            ks.subrange(0, i as int).filter(pred).push(ks[i as int])
        } else {
            ks.subrange(0, i as int).filter(pred)
        });
        i = i + 1;
    }
    assert(ks.subrange(0, i as int) =~= ks);
    let ghost kept = views(r@);
    r.push(project.clone());
    assert(views(r@) =~= kept.push(project@));
    let ghost with_project = views(r@);
    r.push(file_name.clone());
    assert(views(r@) =~= with_project.push(file_name@));
    r
}

} // verus!

//! Executable extraction of tasks and imports from a parsed document.

use vstd::prelude::*;
use crate::document::{
    distinct_keys, import_of_entry, import_path_of, import_views, imports_entries,
    imports_of_entries, lemma_imports_of_entries_invalid, lemma_imports_of_entries_push, map_get,
    node_bool, task_of_entry, task_views, tasks_entries, tasks_of_entries_v, Entry, Error, ErrorV,
    Import, Node, Task,
};
use crate::order::{distinct_names, lemma_perm_distinct_names, sort_tasks, sorted_by_name};
use crate::text::{str_concat, str_ends_with, str_eq};

verus! {

/// The first entry of `es` whose key reads `key`, if any.
pub fn map_get_entry<'a>(es: &'a Vec<Entry>, key: &str) -> (r: Option<&'a Entry>)
    ensures
        match r {
            Some(e) => map_get(es@, key@) == Some(*e),
            None => map_get(es@, key@) is None,
        },
{
    proof {
        assert(es@.skip(0) =~= es@);
    }
    let mut j: usize = 0;
    while j < es.len()
        invariant
            j <= es@.len(),
            map_get(es@, key@) == map_get(es@.skip(j as int), key@),
        decreases es@.len() - j,
    {
        proof {
            assert(es@.skip(j as int)[0] == es@[j as int]);
            assert(es@.skip(j as int).drop_first() =~= es@.skip(j + 1));
        }
        if str_eq(es[j].key.as_str(), key) {
            return Some(&es[j]);
        }
        j = j + 1;
    }
    proof {
        assert(es@.skip(j as int).len() == 0);
    }
    None
}

/// The boolean under `field` of a mapping node, with `default` when absent
/// or not a boolean; a non-mapping node reads as `false`.
pub fn extract_bool(yml: &Node, field: &str, default: bool) -> (r: bool)
    ensures
        r == node_bool(*yml, field@, default),
{
    match yml {
        Node::Mapping(es) => match map_get_entry(es, field) {
            Some(e) => match &e.value {
                Node::Bool(b) => *b,
                _ => default,
            },
            None => default,
        },
        _ => false,
    }
}

/// Derives the target file of a bare string import path.
pub fn derive_import_path(path: &str) -> (r: String)
    ensures
        r@ == crate::document::derived_path_v(path@),
{
    if str_ends_with(path, ".yml") || str_ends_with(path, ".yaml") {
        String::from_str(path)
    } else if str_ends_with(path, "/") {
        str_concat(path, "Taskfile.yml")
    } else {
        str_concat(path, "/Taskfile.yml")
    }
}

/// The target path of one import entry's value.
pub fn extract_import_path(v: &Node) -> (r: Result<String, Error>)
    ensures
        match r {
            Ok(p) => import_path_of(*v) == Some(p@),
            Err(e) => import_path_of(*v) is None && e@ == ErrorV::MalformedDocument,
        },
{
    match v {
        Node::Str(s) => Ok(derive_import_path(s.as_str())),
        Node::Mapping(es) => match map_get_entry(es, "taskfile") {
            Some(e) => match &e.value {
                Node::Str(s) => {
                    if str_ends_with(s.as_str(), ".yml") || str_ends_with(s.as_str(), ".yaml") {
                        Ok(s.clone())
                    } else {
                        Err(Error::MalformedDocument)
                    }
                },
                _ => Err(Error::MalformedDocument),
            },
            None => Err(Error::MalformedDocument),
        },
        _ => Err(Error::MalformedDocument),
    }
}

/// The entries of the document's `tasks` mapping.
pub(crate) fn doc_task_entries<'a>(doc: &'a Node) -> (r: Option<&'a Vec<Entry>>)
    ensures
        match r {
            Some(es) => tasks_entries(*doc) == Some(es@),
            None => tasks_entries(*doc) is None,
        },
{
    match doc {
        Node::Mapping(es) => match map_get_entry(es, "tasks") {
            Some(e) => match &e.value {
                Node::Mapping(ts) => Some(ts),
                _ => None,
            },
            None => None,
        },
        _ => None,
    }
}

/// The entries of the document's `includes` mapping.
fn doc_import_entries<'a>(doc: &'a Node) -> (r: Option<&'a Vec<Entry>>)
    ensures
        match r {
            Some(es) => imports_entries(*doc) == Some(es@),
            None => imports_entries(*doc) is None,
        },
{
    match doc {
        Node::Mapping(es) => match map_get_entry(es, "includes") {
            Some(e) => match &e.value {
                Node::Mapping(is) => Some(is),
                _ => None,
            },
            None => None,
        },
        _ => None,
    }
}

/// Builds the task records of a `tasks` mapping, in declaration order.
pub(crate) fn tasks_of_entries(es: &Vec<Entry>) -> (r: Vec<Task>)
    ensures
        task_views(r@) == tasks_of_entries_v(es@),
{
    let mut ts: Vec<Task> = Vec::new();
    proof {
        assert(task_views(ts@) =~= tasks_of_entries_v(es@.take(0)));
    }
    let mut i: usize = 0;
    while i < es.len()
        invariant
            i <= es@.len(),
            task_views(ts@) == tasks_of_entries_v(es@.take(i as int)),
        decreases es@.len() - i,
    {
        let e = &es[i];
        let internal = extract_bool(&e.value, "internal", false);
        let body = match &e.raw {
            Some(s) => s.clone(),
            None => String::from_str("no content"),
        };
        let t = Task { name: e.key.clone(), body, internal };
        proof {
            assert(t@ == task_of_entry(es@[i as int]));
        }
        let ghost prev = ts@;
        ts.push(t);
        proof {
            assert(task_views(ts@) =~= tasks_of_entries_v(es@.take(i + 1))) by {
                assert(task_views(prev).len() == prev.len());
                assert(tasks_of_entries_v(es@.take(i as int)).len() == es@.take(i as int).len());
                assert(prev.len() == i);
                assert(ts@ == prev.push(t));
                assert forall|k: int| 0 <= k < i + 1 implies task_views(ts@)[k]
                    == tasks_of_entries_v(es@.take(i + 1))[k] by {
                    assert(es@.take(i + 1)[k] == es@[k]);
                    if k < i {
                        assert(task_views(ts@)[k] == prev[k]@);
                        assert(task_views(prev)[k] == prev[k]@);
                        assert(task_views(prev)[k] == tasks_of_entries_v(es@.take(i as int))[k]);
                        assert(tasks_of_entries_v(es@.take(i as int))[k] == task_of_entry(
                            es@.take(i as int)[k],
                        ));
                        assert(es@.take(i as int)[k] == es@[k]);
                    } else {
                        assert(task_views(ts@)[k] == t@);
                    }
                }
                assert(task_views(ts@).len() == i + 1);
                assert(tasks_of_entries_v(es@.take(i + 1)).len() == i + 1);
            }
        }
        i = i + 1;
    }
    proof {
        assert(es@.take(es@.len() as int) =~= es@);
    }
    ts
}

/// The tasks declared by the document itself, sorted by name.
///
/// A document without a well-shaped `tasks` mapping is malformed, even when
/// it only declares imports. When the mapping's keys are distinct, no two
/// returned tasks share a name.
pub fn get_tasks(doc: &Node) -> (r: Result<Vec<Task>, Error>)
    ensures
        match r {
            Ok(ts) => {
                &&& tasks_entries(*doc) is Some
                &&& task_views(ts@).to_multiset() == tasks_of_entries_v(
                    tasks_entries(*doc)->Some_0,
                ).to_multiset()
                &&& sorted_by_name(task_views(ts@))
                &&& distinct_keys(tasks_entries(*doc)->Some_0) ==> distinct_names(task_views(ts@))
            },
            Err(e) => tasks_entries(*doc) is None && e@ == ErrorV::MalformedDocument,
        },
{
    match doc_task_entries(doc) {
        Some(es) => {
            let mut ts = tasks_of_entries(es);
            let ghost entry_order = task_views(ts@);
            sort_tasks(&mut ts);
            proof {
                if distinct_keys(es@) {
                    assert forall|i: int, j: int|
                        0 <= i < j < entry_order.len() implies entry_order[i].name
                        != entry_order[j].name by {
                        assert(entry_order[i] == task_of_entry(es@[i]));
                        assert(entry_order[j] == task_of_entry(es@[j]));
                    }
                    lemma_perm_distinct_names(entry_order, task_views(ts@));
                }
            }
            Ok(ts)
        },
        None => Err(Error::MalformedDocument),
    }
}

/// The imports declared by the document, in declaration order, or `None`
/// when it has no `includes` mapping; a malformed entry fails the document.
pub fn get_imports(doc: &Node) -> (r: Result<Option<Vec<Import>>, Error>)
    ensures
        match r {
            Ok(Some(is)) => {
                &&& imports_entries(*doc) is Some
                &&& imports_of_entries(imports_entries(*doc)->Some_0) == Some(import_views(is@))
            },
            Ok(None) => imports_entries(*doc) is None,
            Err(e) => {
                &&& imports_entries(*doc) is Some
                &&& imports_of_entries(imports_entries(*doc)->Some_0) is None
                &&& e@ == ErrorV::MalformedDocument
            },
        },
{
    let es = match doc_import_entries(doc) {
        Some(es) => es,
        None => {
            return Ok(None);
        },
    };
    let mut acc: Vec<Import> = Vec::new();
    proof {
        assert(imports_of_entries(es@.take(0)) =~= Some(import_views(acc@)));
    }
    let mut j: usize = 0;
    while j < es.len()
        invariant
            j <= es@.len(),
            imports_entries(*doc) == Some(es@),
            imports_of_entries(es@.take(j as int)) == Some(import_views(acc@)),
        decreases es@.len() - j,
    {
        let e = &es[j];
        let path = match extract_import_path(&e.value) {
            Ok(p) => p,
            Err(err) => {
                proof {
                    lemma_imports_of_entries_invalid(es@, j as int);
                }
                return Err(err);
            },
        };
        let optional = extract_bool(&e.value, "optional", false);
        let internal = extract_bool(&e.value, "internal", false);
        let imp = Import { name: e.key.clone(), path, optional, internal };
        proof {
            assert(import_of_entry(es@[j as int]) == Some(imp@));
        }
        acc.push(imp);
        proof {
            lemma_imports_of_entries_push(es@.take(j as int), es@[j as int]);
            assert(es@.take(j + 1) =~= es@.take(j as int).push(es@[j as int]));
            assert(import_views(acc@) =~= import_views(acc@.drop_last()).push(acc@.last()@));
        }
        j = j + 1;
    }
    proof {
        assert(es@.take(es@.len() as int) =~= es@);
    }
    Ok(Some(acc))
}

} // verus!

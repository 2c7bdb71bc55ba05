//! The import walker: resolves a root document against a snapshot of parsed
//! files into the flat task list, prefixing names and propagating the
//! internal flag down the import tree, and detecting import cycles.

use vstd::prelude::*;
use crate::document::{
    doc_imports, import_views, task_views, tasks_entries, tasks_of_entries_v, Error, ErrorV,
    Import, ImportV, Node, Stop, StopV, Task, TaskV,
};
use crate::order::{sort_tasks, sorted_by_name, distinct_names};
use crate::parser::{doc_task_entries, get_imports, get_tasks, tasks_of_entries};
use crate::text::{join_path, join_path_v, parent_dir, parent_dir_v, str_eq};

verus! {

/// One file of the snapshot: its path, and its parsed document, or `None`
/// when the file is known to be absent or unreadable.
pub struct VfsEntry {
    pub path: String,
    pub doc: Option<Node>,
}

/// A snapshot of every file that the resolution has looked at so far.
pub struct Vfs {
    pub entries: Vec<VfsEntry>,
}

/// What the snapshot holds at `p`: `None` when the path was never looked
/// at, `Some(None)` when the file is known absent, `Some(Some(doc))`
/// otherwise.
pub open spec fn lookup_v(fs: Seq<VfsEntry>, p: Seq<char>) -> Option<Option<Node>>
    decreases fs.len(),
{
    if fs.len() == 0 {
        None
    } else if fs[0].path@ == p {
        Some(fs[0].doc)
    } else {
        lookup_v(fs.drop_first(), p)
    }
}

/// The set of paths of a recursion stack.
pub open spec fn path_set(s: Seq<String>) -> Set<Seq<char>> {
    s.map_values(|x: String| x@).to_set()
}

/// How many snapshot entries have a path outside `stack`: the walker's
/// termination measure, since every level of recursion moves one looked-up
/// path into the stack.
pub open spec fn rem_count(fs: Seq<VfsEntry>, stack: Set<Seq<char>>) -> nat
    decreases fs.len(),
{
    if fs.len() == 0 {
        0
    } else {
        rem_count(fs.drop_first(), stack) + if stack.contains(fs[0].path@) {
            0nat
        } else {
            1nat
        }
    }
}

proof fn lemma_rem_count_mono(fs: Seq<VfsEntry>, stack: Set<Seq<char>>, p: Seq<char>)
    ensures
        rem_count(fs, stack.insert(p)) <= rem_count(fs, stack),
    decreases fs.len(),
{
    if fs.len() > 0 {
        lemma_rem_count_mono(fs.drop_first(), stack, p);
    }
}

pub(crate) proof fn lemma_rem_count_insert(fs: Seq<VfsEntry>, stack: Set<Seq<char>>, p: Seq<char>)
    requires
        lookup_v(fs, p) is Some,
        !stack.contains(p),
    ensures
        rem_count(fs, stack.insert(p)) < rem_count(fs, stack),
    decreases fs.len(),
{
    if fs[0].path@ == p {
        lemma_rem_count_mono(fs.drop_first(), stack, p);
    } else {
        lemma_rem_count_insert(fs.drop_first(), stack, p);
    }
}

/// A task as it is seen through an import: its name under the import's
/// namespace, its internal flag weakened by the import's own.
pub open spec fn apply_one_v(inc: ImportV, t: TaskV) -> TaskV {
    TaskV {
        name: inc.name + ":"@ + t.name,
        body: t.body,
        internal: t.internal || inc.internal,
    }
}

/// A whole task list seen through an import.
pub open spec fn apply_import_v(inc: ImportV, s: Seq<TaskV>) -> Seq<TaskV> {
    s.map_values(|t: TaskV| apply_one_v(inc, t))
}

/// The tasks contributed by a list of imports declared in a document under
/// `dir`, walked depth-first in declaration order against the snapshot
/// `fs`. The walk stops early when it meets a path that the snapshot does
/// not hold yet, a missing non-optional file, a malformed document, or a
/// path that is already on the recursion stack.
pub open spec fn walk_v(
    incs: Seq<ImportV>,
    dir: Seq<char>,
    fs: Seq<VfsEntry>,
    stack: Set<Seq<char>>,
) -> Result<Seq<TaskV>, StopV>
    decreases rem_count(fs, stack), incs.len(),
    via walk_v_dec
{
    if incs.len() == 0 {
        Ok(Seq::empty())
    } else {
        let inc = incs[0];
        let p = join_path_v(dir, inc.path);
        match lookup_v(fs, p) {
            None => Err(StopV::Need(p)),
            Some(None) => if inc.optional {
                walk_v(incs.drop_first(), dir, fs, stack)
            } else {
                Err(StopV::Fail(ErrorV::MissingRequiredImport(p)))
            },
            Some(Some(doc)) => if stack.contains(p) {
                Err(StopV::Fail(ErrorV::CyclicImport(p)))
            } else {
                match tasks_entries(doc) {
                    None => Err(StopV::Fail(ErrorV::MalformedDocument)),
                    Some(es) => match doc_imports(doc) {
                        None => Err(StopV::Fail(ErrorV::MalformedDocument)),
                        Some(sub_incs) => match walk_v(
                            sub_incs,
                            parent_dir_v(p),
                            fs,
                            stack.insert(p),
                        ) {
                            Err(st) => Err(st),
                            Ok(sub) => match walk_v(incs.drop_first(), dir, fs, stack) {
                                Err(st) => Err(st),
                                Ok(rest) => Ok(
                                    apply_import_v(inc, tasks_of_entries_v(es) + sub) + rest,
                                ),
                            },
                        },
                    },
                }
            },
        }
    }
}

#[via_fn]
proof fn walk_v_dec(incs: Seq<ImportV>, dir: Seq<char>, fs: Seq<VfsEntry>, stack: Set<Seq<char>>) {
    if incs.len() > 0 {
        let p = join_path_v(dir, incs[0].path);
        match lookup_v(fs, p) {
            Some(Some(_)) => {
                if !stack.contains(p) {
                    lemma_rem_count_insert(fs, stack, p);
                }
            },
            _ => {},
        }
    }
}

/// One task's name put under a namespace, with a `:` separator.
pub open spec fn prefix_one_v(ns: Seq<char>, t: TaskV) -> TaskV {
    TaskV { name: ns + ":"@ + t.name, body: t.body, internal: t.internal }
}

/// A whole task list put under a namespace.
pub open spec fn prefix_tasks_v(ns: Seq<char>, s: Seq<TaskV>) -> Seq<TaskV> {
    s.map_values(|t: TaskV| prefix_one_v(ns, t))
}

/// One task's internal flag weakened by an import's flag.
pub open spec fn flag_one_v(b: bool, t: TaskV) -> TaskV {
    TaskV { name: t.name, body: t.body, internal: t.internal || b }
}

/// A whole task list's internal flags weakened by an import's flag.
pub open spec fn flag_tasks_v(b: bool, s: Seq<TaskV>) -> Seq<TaskV> {
    s.map_values(|t: TaskV| flag_one_v(b, t))
}

/// Namespaces every task's name under `namespace`, with a `:` separator.
pub fn prefix_tasks(tasks: Vec<Task>, namespace: String) -> (r: Vec<Task>)
    ensures
        task_views(r@) == prefix_tasks_v(namespace@, task_views(tasks@)),
{
    let mut out: Vec<Task> = Vec::new();
    let mut i: usize = 0;
    while i < tasks.len()
        invariant
            i <= tasks@.len(),
            out@.len() == i,
            forall|k: int|
                0 <= k < i ==> #[trigger] out@[k]@ == prefix_one_v(namespace@, tasks@[k]@),
        decreases tasks@.len() - i,
    {
        let t = &tasks[i];
        let name = crate::text::str_concat(namespace.as_str(), ":").concat(t.name.as_str());
        out.push(Task { name, body: t.body.clone(), internal: t.internal });
        proof {
            assert(out@[i as int]@ == prefix_one_v(namespace@, tasks@[i as int]@));
        }
        i = i + 1;
    }
    proof {
        assert(task_views(out@) =~= prefix_tasks_v(namespace@, task_views(tasks@)));
    }
    out
}

/// Weakens every task's internal flag by the import's own.
pub fn flag_internal_tasks(imp: &Import, tasks: Vec<Task>) -> (r: Vec<Task>)
    ensures
        task_views(r@) == flag_tasks_v(imp.internal, task_views(tasks@)),
{
    let mut out: Vec<Task> = Vec::new();
    let mut i: usize = 0;
    while i < tasks.len()
        invariant
            i <= tasks@.len(),
            out@.len() == i,
            forall|k: int|
                0 <= k < i ==> #[trigger] out@[k]@ == flag_one_v(imp.internal, tasks@[k]@),
        decreases tasks@.len() - i,
    {
        let t = &tasks[i];
        out.push(Task { name: t.name.clone(), body: t.body.clone(), internal: t.internal || imp.internal });
        proof {
            assert(out@[i as int]@ == flag_one_v(imp.internal, tasks@[i as int]@));
        }
        i = i + 1;
    }
    proof {
        assert(task_views(out@) =~= flag_tasks_v(imp.internal, task_views(tasks@)));
    }
    out
}

/// The first snapshot entry at path `p`, if any.
fn vfs_lookup<'a>(fs: &'a Vfs, p: &str) -> (r: Option<&'a VfsEntry>)
    ensures
        match r {
            Some(en) => lookup_v(fs.entries@, p@) == Some(en.doc),
            None => lookup_v(fs.entries@, p@) is None,
        },
{
    proof {
        assert(fs.entries@.skip(0) =~= fs.entries@);
    }
    let mut j: usize = 0;
    while j < fs.entries.len()
        invariant
            j <= fs.entries@.len(),
            lookup_v(fs.entries@, p@) == lookup_v(fs.entries@.skip(j as int), p@),
        decreases fs.entries@.len() - j,
    {
        proof {
            assert(fs.entries@.skip(j as int)[0] == fs.entries@[j as int]);
            assert(fs.entries@.skip(j as int).drop_first() =~= fs.entries@.skip(j + 1));
        }
        if str_eq(fs.entries[j].path.as_str(), p) {
            return Some(&fs.entries[j]);
        }
        j = j + 1;
    }
    proof {
        assert(fs.entries@.skip(j as int).len() == 0);
    }
    None
}

/// Whether path `p` is on the recursion stack.
fn stack_contains(stack: &Vec<String>, p: &str) -> (r: bool)
    ensures
        r == path_set(stack@).contains(p@),
{
    let ghost m = stack@.map_values(|x: String| x@);
    let mut i: usize = 0;
    while i < stack.len()
        invariant
            i <= stack@.len(),
            m == stack@.map_values(|x: String| x@),
            forall|k: int| 0 <= k < i ==> #[trigger] m[k] != p@,
        decreases stack@.len() - i,
    {
        if str_eq(stack[i].as_str(), p) {
            proof {
                assert(m[i as int] == p@);
                assert(m.contains(p@));
            }
            return true;
        }
        i = i + 1;
    }
    proof {
        assert(!path_set(stack@).contains(p@)) by {
            if m.contains(p@) {
                let k = choose|k: int| 0 <= k < m.len() && m[k] == p@;
                assert(m[k] != p@);
            }
        }
    }
    false
}

/// The stack extended by one path.
fn stack_push(stack: &Vec<String>, p: &str) -> (r: Vec<String>)
    ensures
        path_set(r@) == path_set(stack@).insert(p@),
{
    let mut out: Vec<String> = Vec::new();
    let mut i: usize = 0;
    while i < stack.len()
        invariant
            i <= stack@.len(),
            out@.len() == i,
            forall|k: int| 0 <= k < i ==> #[trigger] out@[k]@ == stack@[k]@,
        decreases stack@.len() - i,
    {
        out.push(stack[i].clone());
        i = i + 1;
    }
    out.push(String::from_str(p));
    proof {
        let mo = out@.map_values(|x: String| x@);
        let ms = stack@.map_values(|x: String| x@);
        assert forall|x: Seq<char>|
            path_set(out@).contains(x) == path_set(stack@).insert(p@).contains(x) by {
            if path_set(out@).contains(x) {
                let k = choose|k: int| 0 <= k < mo.len() && mo[k] == x;
                if k < stack@.len() {
                    assert(ms[k] == x);
                    assert(ms.contains(x));
                } else {
                    assert(x == p@);
                }
            }
            if path_set(stack@).insert(p@).contains(x) {
                if x == p@ {
                    assert(mo[stack@.len() as int] == p@);
                    assert(mo.contains(x));
                } else {
                    assert(ms.contains(x));
                    let k = choose|k: int| 0 <= k < ms.len() && ms[k] == x;
                    assert(mo[k] == x);
                    assert(mo.contains(x));
                }
            }
        }
        assert(path_set(out@) =~= path_set(stack@).insert(p@));
    }
    out
}

/// Applying an import distributes over concatenation.
proof fn lemma_apply_split(inc: ImportV, a: Seq<TaskV>, b: Seq<TaskV>)
    ensures
        apply_import_v(inc, a + b) == apply_import_v(inc, a) + apply_import_v(inc, b),
{
    assert(apply_import_v(inc, a + b) =~= apply_import_v(inc, a) + apply_import_v(inc, b));
}

/// The tasks that the imports of one document contribute, in walk order;
/// exactly the sequence that `walk_v` denotes.
#[verifier::rlimit(60)]
fn walk_imports(imports: &Vec<Import>, dir: &str, fs: &Vfs, stack: &Vec<String>) -> (r: Result<
    Vec<Task>,
    Stop,
>)
    ensures
        match r {
            Ok(ts) => walk_v(import_views(imports@), dir@, fs.entries@, path_set(stack@))
                == Ok::<Seq<TaskV>, StopV>(task_views(ts@)),
            Err(st) => walk_v(import_views(imports@), dir@, fs.entries@, path_set(stack@))
                == Err::<Seq<TaskV>, StopV>(st@),
        },
    decreases rem_count(fs.entries@, path_set(stack@)), imports@.len(),
{
    let ghost all = import_views(imports@);
    let ghost fsv = fs.entries@;
    let ghost stk = path_set(stack@);
    let mut acc: Vec<Task> = Vec::new();
    proof {
        assert(all.skip(0) =~= all);
        assert(task_views(acc@) =~= Seq::<TaskV>::empty());
    }
    let mut i: usize = 0;
    while i < imports.len()
        invariant
            i <= imports@.len(),
            all == import_views(imports@),
            fsv == fs.entries@,
            stk == path_set(stack@),
            walk_v(all.skip(i as int), dir@, fsv, stk) is Ok ==> walk_v(all, dir@, fsv, stk)
                == Ok::<Seq<TaskV>, StopV>(
                task_views(acc@) + walk_v(all.skip(i as int), dir@, fsv, stk)->Ok_0,
            ),
            walk_v(all.skip(i as int), dir@, fsv, stk) is Err ==> walk_v(all, dir@, fsv, stk)
                == walk_v(all.skip(i as int), dir@, fsv, stk),
        decreases imports@.len() - i,
    {
        let ghost rest = all.skip(i as int);
        proof {
            assert(rest.len() > 0);
            assert(rest[0] == imports@[i as int]@);
            assert(rest.drop_first() =~= all.skip(i + 1));
        }
        let imp = &imports[i];
        let p = join_path(dir, imp.path.as_str());
        let ghost pv = join_path_v(dir@, rest[0].path);
        proof {
            assert(p@ == pv);
        }
        let entry = match vfs_lookup(fs, p.as_str()) {
            Some(en) => en,
            None => {
                return Err(Stop::Need(p));
            },
        };
        match &entry.doc {
            None => {
                if imp.optional {
                    // an optional import whose file is absent contributes
                    // nothing at all
                    proof {
                        assert(walk_v(rest, dir@, fsv, stk) == walk_v(
                            all.skip(i + 1),
                            dir@,
                            fsv,
                            stk,
                        ));
                    }
                    i = i + 1;
                    continue ;
                }
                return Err(Stop::Fail(Error::MissingRequiredImport(p)));
            },
            Some(doc) => {
                if stack_contains(stack, p.as_str()) {
                    return Err(Stop::Fail(Error::CyclicImport(p)));
                }
                let es = match doc_task_entries(doc) {
                    Some(es) => es,
                    None => {
                        return Err(Stop::Fail(Error::MalformedDocument));
                    },
                };
                let own = tasks_of_entries(es);
                let sub_imports = match get_imports(doc) {
                    Ok(Some(v)) => v,
                    Ok(None) => Vec::new(),
                    Err(e) => {
                        return Err(Stop::Fail(e));
                    },
                };
                proof {
                    assert(import_views(sub_imports@) == doc_imports(*doc)->Some_0) by {
                        if doc_imports(*doc) is Some {
                            assert(import_views(sub_imports@) =~= doc_imports(*doc)->Some_0);
                        }
                    }
                }
                let parent = parent_dir(p.as_str());
                let new_stack = stack_push(stack, p.as_str());
                proof {
                    lemma_rem_count_insert(fsv, stk, pv);
                }
                let sub = match walk_imports(&sub_imports, parent.as_str(), fs, &new_stack) {
                    Ok(v) => v,
                    Err(st) => {
                        return Err(st);
                    },
                };
                let ghost acc_before = task_views(acc@);
                let ghost own_v = task_views(own@);
                let ghost sub_v = task_views(sub@);
                let mut part = flag_internal_tasks(imp, prefix_tasks(own, imp.name.clone()));
                let mut sub_part = flag_internal_tasks(imp, prefix_tasks(sub, imp.name.clone()));
                proof {
                    assert(task_views(part@) =~= apply_import_v(rest[0], own_v));
                    assert(task_views(sub_part@) =~= apply_import_v(rest[0], sub_v));
                }
                acc.append(&mut part);
                acc.append(&mut sub_part);
                proof {
                    lemma_apply_split(rest[0], own_v, sub_v);
                    assert(task_views(acc@) =~= acc_before + apply_import_v(
                        rest[0],
                        own_v + sub_v,
                    ));
                    let level_part = apply_import_v(rest[0], tasks_of_entries_v(es@) + sub_v);
                    assert(own_v + sub_v == tasks_of_entries_v(es@) + sub_v);
                    let w_rest = walk_v(all.skip(i + 1), dir@, fsv, stk);
                    if w_rest is Ok {
                        assert(walk_v(rest, dir@, fsv, stk) == Ok::<Seq<TaskV>, StopV>(
                            level_part + w_rest->Ok_0,
                        ));
                        assert(task_views(acc@) + w_rest->Ok_0 =~= acc_before + (level_part
                            + w_rest->Ok_0));
                    } else {
                        assert(walk_v(rest, dir@, fsv, stk) == w_rest);
                    }
                }
                i = i + 1;
            },
        }
    }
    proof {
        assert(all.skip(i as int).len() == 0);
        assert(walk_v(all.skip(i as int), dir@, fsv, stk) == Ok::<Seq<TaskV>, StopV>(
            Seq::<TaskV>::empty(),
        ));
        assert(task_views(acc@) + Seq::<TaskV>::empty() =~= task_views(acc@));
    }
    Ok(acc)
}

/// What a full resolution denotes: the root's own tasks in declaration
/// order, and the walked import contributions, or the stop that ended it.
pub open spec fn resolve_v(root: Node, dir: Seq<char>, fs: Seq<VfsEntry>) -> Result<
    (Seq<TaskV>, Seq<TaskV>),
    StopV,
> {
    match tasks_entries(root) {
        None => Err(StopV::Fail(ErrorV::MalformedDocument)),
        Some(es) => match doc_imports(root) {
            None => Err(StopV::Fail(ErrorV::MalformedDocument)),
            Some(incs) => match walk_v(incs, dir, fs, Set::empty()) {
                Err(st) => Err(st),
                Ok(sub) => Ok((tasks_of_entries_v(es), sub)),
            },
        },
    }
}

/// Resolves the root document under directory `dir` against the snapshot:
/// the root's own tasks sorted by name, followed by the import tree's
/// tasks sorted by name. Asks for a missing file, or fails, as
/// `resolve_v` denotes.
pub fn resolve(root: &Node, dir: &str, fs: &Vfs) -> (r: Result<Vec<Task>, Stop>)
    ensures
        match r {
            Ok(ts) => {
                let rv = resolve_v(*root, dir@, fs.entries@);
                let own = rv->Ok_0.0;
                let sub = rv->Ok_0.1;
                &&& rv is Ok
                &&& ts@.len() == own.len() + sub.len()
                &&& sorted_by_name(task_views(ts@).take(own.len() as int))
                &&& task_views(ts@).take(own.len() as int).to_multiset() == own.to_multiset()
                &&& sorted_by_name(task_views(ts@).skip(own.len() as int))
                &&& task_views(ts@).skip(own.len() as int).to_multiset() == sub.to_multiset()
                &&& crate::document::distinct_keys(tasks_entries(*root)->Some_0)
                    ==> distinct_names(task_views(ts@).take(own.len() as int))
            },
            Err(st) => resolve_v(*root, dir@, fs.entries@) == Err::<(Seq<TaskV>, Seq<TaskV>),
                StopV,
            >(st@),
        },
{
    let mut tasks = match get_tasks(root) {
        Ok(t) => t,
        Err(e) => {
            return Err(Stop::Fail(e));
        },
    };
    let imports = match get_imports(root) {
        Ok(Some(v)) => v,
        Ok(None) => Vec::new(),
        Err(e) => {
            return Err(Stop::Fail(e));
        },
    };
    proof {
        assert(import_views(imports@) == doc_imports(*root)->Some_0) by {
            if doc_imports(*root) is Some {
                assert(import_views(imports@) =~= doc_imports(*root)->Some_0);
            }
        }
    }
    let empty_stack: Vec<String> = Vec::new();
    proof {
        assert(path_set(empty_stack@) =~= Set::<Seq<char>>::empty());
    }
    let mut sub = match walk_imports(&imports, dir, fs, &empty_stack) {
        Ok(v) => v,
        Err(st) => {
            return Err(st);
        },
    };
    sort_tasks(&mut sub);
    let ghost own_views = task_views(tasks@);
    let ghost sub_views = task_views(sub@);
    let ghost rv = resolve_v(*root, dir@, fs.entries@);
    proof {
        let own = rv->Ok_0.0;
        let subs = rv->Ok_0.1;
        own_views.to_multiset_ensures();
        sub_views.to_multiset_ensures();
        own.to_multiset_ensures();
        subs.to_multiset_ensures();
        assert(own_views.len() == own.len());
        assert(sub_views.len() == subs.len());
    }
    tasks.append(&mut sub);
    proof {
        assert(task_views(tasks@) =~= own_views + sub_views);
        assert(task_views(tasks@).take(own_views.len() as int) =~= own_views);
        assert(task_views(tasks@).skip(own_views.len() as int) =~= sub_views);
    }
    Ok(tasks)
}

} // verus!

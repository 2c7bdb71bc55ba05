//! The resolver's laws: where every resolved task comes from, what an
//! absent import file does to the walk, and when a document fails outright.

use vstd::prelude::*;
use crate::document::{
    tasks_entries, tasks_of_entries_v, ErrorV, ImportV, Node, StopV, TaskV,
};
use crate::resolve::{
    apply_import_v, apply_one_v, lemma_rem_count_insert, lookup_v, rem_count, resolve_v, walk_v,
    VfsEntry,
};
use crate::text::join_path_v;

verus! {

/// The name of a task reached through a chain of imports: each level's
/// namespace prepended in order, joined with `:`.
pub open spec fn chain_name(chain: Seq<ImportV>, base: Seq<char>) -> Seq<char>
    decreases chain.len(),
{
    if chain.len() == 0 {
        base
    } else {
        chain[0].name + ":"@ + chain_name(chain.drop_first(), base)
    }
}

/// The internal flag of a task reached through a chain of imports: its own
/// declared flag, weakened by every level's flag.
pub open spec fn chain_internal(chain: Seq<ImportV>, base: bool) -> bool
    decreases chain.len(),
{
    if chain.len() == 0 {
        base
    } else {
        chain_internal(chain.drop_first(), base) || chain[0].internal
    }
}

/// The task `t` decomposes along a non-empty chain of imports that starts
/// at one of `incs`: its name is the chain's namespaces joined around a
/// base name, and its internal flag is the logical `or` of its base flag
/// and every flag along the chain.
pub open spec fn reached_through(incs: Seq<ImportV>, t: TaskV) -> bool {
    exists|chain: Seq<ImportV>, base: TaskV|
        {
            &&& #[trigger] chain_name(chain, base.name) == t.name
            &&& chain.len() >= 1
            &&& incs.contains(chain[0])
            &&& t.internal == chain_internal(chain, base.internal)
            &&& t.body == base.body
        }
}

/// Every task that a walk of `incs` yields is reached through a chain of
/// imports starting at one of `incs`, carrying the namespaces and the
/// or-ed internal flags of the whole chain.
pub proof fn lemma_walk_provenance(
    incs: Seq<ImportV>,
    dir: Seq<char>,
    fs: Seq<VfsEntry>,
    stack: Set<Seq<char>>,
    t: TaskV,
)
    requires
        walk_v(incs, dir, fs, stack) is Ok,
        walk_v(incs, dir, fs, stack)->Ok_0.contains(t),
    ensures
        reached_through(incs, t),
    decreases rem_count(fs, stack), incs.len(),
{
    let res = walk_v(incs, dir, fs, stack)->Ok_0;
    let inc = incs[0];
    let p = join_path_v(dir, inc.path);
    match lookup_v(fs, p) {
        None => {},
        Some(None) => {
            // the file is absent, so the import is optional and contributes
            // nothing: t comes from the later imports
            lemma_walk_provenance(incs.drop_first(), dir, fs, stack, t);
            let (chain, base) = choose|chain: Seq<ImportV>, base: TaskV|
                {
                    &&& #[trigger] chain_name(chain, base.name) == t.name
                    &&& chain.len() >= 1
                    &&& incs.drop_first().contains(chain[0])
                    &&& t.internal == chain_internal(chain, base.internal)
                    &&& t.body == base.body
                };
            assert(incs.contains(chain[0])) by {
                let k = choose|k: int|
                    0 <= k < incs.drop_first().len() && incs.drop_first()[k] == chain[0];
                assert(incs[k + 1] == chain[0]);
            }
        },
        Some(Some(doc)) => {
            let es = tasks_entries(doc)->Some_0;
            let sub_incs = crate::document::doc_imports(doc)->Some_0;
            let sub = walk_v(sub_incs, crate::text::parent_dir_v(p), fs, stack.insert(p))->Ok_0;
            let rest = walk_v(incs.drop_first(), dir, fs, stack)->Ok_0;
            let own = tasks_of_entries_v(es);
            let level_part = apply_import_v(inc, own + sub);
            assert(res == level_part + rest);
            let idx = choose|idx: int| 0 <= idx < res.len() && res[idx] == t;
            if idx < level_part.len() {
                let u = (own + sub)[idx];
                assert(t == apply_one_v(inc, u));
                if idx < own.len() {
                    // t is one of the file's own tasks, one level deep
                    let chain = seq![inc];
                    assert(chain.len() == 1);
                    assert(chain[0] == inc);
                    assert(chain.drop_first() =~= Seq::<ImportV>::empty());
                    assert(chain_name(chain.drop_first(), u.name) == u.name);
                    assert(chain_internal(chain.drop_first(), u.internal) == u.internal);
                    assert(chain_name(chain, u.name) == inc.name + ":"@ + u.name);
                    assert(chain_internal(chain, u.internal) == (u.internal || inc.internal));
                    assert(incs.contains(chain[0]));
                    assert(chain_name(chain, u.name) == t.name);
                } else {
                    // t comes out of a nested import of the file: prepend
                    // this import to the nested chain
                    assert(sub.contains(u)) by {
                        assert(sub[idx - own.len()] == u);
                    }
                    lemma_rem_count_insert(fs, stack, p);
                    lemma_walk_provenance(
                        sub_incs,
                        crate::text::parent_dir_v(p),
                        fs,
                        stack.insert(p),
                        u,
                    );
                    let (chain0, base) = choose|chain0: Seq<ImportV>, base: TaskV|
                        {
                            &&& #[trigger] chain_name(chain0, base.name) == u.name
                            &&& chain0.len() >= 1
                            &&& sub_incs.contains(chain0[0])
                            &&& u.internal == chain_internal(chain0, base.internal)
                            &&& u.body == base.body
                        };
                    let chain = seq![inc] + chain0;
                    assert(chain[0] == inc);
                    assert(chain.drop_first() =~= chain0);
                    assert(chain_name(chain, base.name) == inc.name + ":"@ + chain_name(
                        chain0,
                        base.name,
                    ));
                    assert(chain_internal(chain, base.internal) == (chain_internal(
                        chain0,
                        base.internal,
                    ) || inc.internal));
                    assert(incs.contains(chain[0]));
                    assert(chain_name(chain, base.name) == t.name);
                }
            } else {
                // t comes from the later imports of this level
                assert(rest.contains(t)) by {
                    assert(rest[idx - level_part.len()] == t);
                }
                lemma_walk_provenance(incs.drop_first(), dir, fs, stack, t);
                let (chain, base) = choose|chain: Seq<ImportV>, base: TaskV|
                    {
                        &&& #[trigger] chain_name(chain, base.name) == t.name
                        &&& chain.len() >= 1
                        &&& incs.drop_first().contains(chain[0])
                        &&& t.internal == chain_internal(chain, base.internal)
                        &&& t.body == base.body
                    };
                assert(incs.contains(chain[0])) by {
                    let k = choose|k: int|
                        0 <= k < incs.drop_first().len() && incs.drop_first()[k] == chain[0];
                    assert(incs[k + 1] == chain[0]);
                }
            }
        },
    }
}

/// An import whose file is absent contributes zero tasks and no error when
/// it is optional, and stops the whole walk with `MissingRequiredImport`
/// when it is not.
pub proof fn lemma_missing_import(
    incs: Seq<ImportV>,
    dir: Seq<char>,
    fs: Seq<VfsEntry>,
    stack: Set<Seq<char>>,
)
    requires
        incs.len() > 0,
        lookup_v(fs, join_path_v(dir, incs[0].path)) == Some(None::<Node>),
    ensures
        incs[0].optional ==> walk_v(incs, dir, fs, stack) == walk_v(
            incs.drop_first(),
            dir,
            fs,
            stack,
        ),
        !incs[0].optional ==> walk_v(incs, dir, fs, stack) == Err::<Seq<TaskV>, StopV>(
            StopV::Fail(ErrorV::MissingRequiredImport(join_path_v(dir, incs[0].path))),
        ),
{
}

/// A document without a `tasks` mapping fails the whole resolution with
/// `MalformedDocument`, whatever imports it declares.
pub proof fn lemma_missing_tasks_mapping(root: Node, dir: Seq<char>, fs: Seq<VfsEntry>)
    requires
        tasks_entries(root) is None,
    ensures
        resolve_v(root, dir, fs) == Err::<(Seq<TaskV>, Seq<TaskV>), StopV>(
            StopV::Fail(ErrorV::MalformedDocument),
        ),
{
}

} // verus!

//! Ordering of tasks by name: the sortedness predicate, a verified
//! insertion sort, and how name-distinctness survives reordering.

use vstd::prelude::*;
use vstd::seq_lib::group_to_multiset_ensures;
use vstd::seq_lib::lemma_multiset_commutative;
use vstd::multiset::group_multiset_axioms;
use crate::document::{Task, TaskV, task_views};
use crate::text::{lex_le, lemma_lex_le_total, lemma_lex_le_trans, str_le};

verus! {

/// Order on tasks: by name, lexicographically.
pub open spec fn task_le(a: TaskV, b: TaskV) -> bool {
    lex_le(a.name, b.name)
}

/// The sequence is ordered by name.
pub open spec fn sorted_by_name(s: Seq<TaskV>) -> bool {
    forall|i: int, j: int| 0 <= i < j < s.len() ==> #[trigger] task_le(s[i], s[j])
}

/// No two tasks of the sequence share a name.
pub open spec fn distinct_names(s: Seq<TaskV>) -> bool {
    forall|i: int, j: int| 0 <= i < j < s.len() ==> s[i].name != s[j].name
}

/// Inserting an element into a sequence inserts it into the multiset.
proof fn lemma_insert_to_multiset(s: Seq<TaskV>, pos: int, x: TaskV)
    requires
        0 <= pos <= s.len(),
    ensures
        s.insert(pos, x).to_multiset() == s.to_multiset().insert(x),
{
    broadcast use group_to_multiset_ensures;
    broadcast use group_multiset_axioms;

    let s0 = s.subrange(0, pos);
    let s1 = s.subrange(pos, s.len() as int);
    s0.to_multiset_ensures();
    s1.to_multiset_ensures();
    s.to_multiset_ensures();
    assert(s =~= s0 + s1);
    lemma_multiset_commutative(s0, s1);
    assert(s.insert(pos, x) == s0.push(x) + s1);
    lemma_multiset_commutative(s0.push(x), s1);
    assert(s0.push(x).to_multiset() =~= s0.to_multiset().insert(x));
    assert(s.insert(pos, x).to_multiset() =~= s.to_multiset().insert(x));
}

/// Sorts the tasks by name, keeping exactly the same tasks.
#[verifier::rlimit(60)]
pub fn sort_tasks(ts: &mut Vec<Task>)
    ensures
        sorted_by_name(task_views(final(ts)@)),
        task_views(final(ts)@).to_multiset() == task_views(old(ts)@).to_multiset(),
        final(ts)@.len() == old(ts)@.len(),
{
    broadcast use group_to_multiset_ensures;
    broadcast use group_multiset_axioms;

    if ts.len() <= 1 {
        return ;
    }
    let ghost orig = ts@;
    let mut i: usize = 1;
    while i < ts.len()
        invariant
            1 <= i <= ts@.len(),
            ts@.len() == orig.len(),
            task_views(ts@).to_multiset() == task_views(orig).to_multiset(),
            sorted_by_name(task_views(ts@).take(i as int)),
        decreases ts@.len() - i,
    {
        let ghost before = ts@;
        let x = ts.remove(i);
        let ghost mid = ts@;
        let ghost v_before = task_views(before);
        let ghost v_mid = task_views(mid);
        proof {
            assert(v_mid =~= v_before.remove(i as int));
            v_before.remove_ensures(i as int);
            assert(v_before[i as int] == x@);
        }
        let mut pos: usize = 0;
        while pos < i && str_le(ts[pos].name.as_str(), x.name.as_str())
            invariant
                pos <= i,
                i < before.len(),
                ts@ == mid,
                mid.len() == before.len() - 1,
                v_mid == task_views(mid),
                forall|k: int| 0 <= k < pos ==> task_le(#[trigger] v_mid[k], x@),
            decreases i - pos,
        {
            pos = pos + 1;
        }
        proof {
            if pos < i {
                assert(!lex_le(v_mid[pos as int].name, x@.name));
                lemma_lex_le_total(v_mid[pos as int].name, x@.name);
                assert(task_le(x@, v_mid[pos as int]));
            }
        }
        ts.insert(pos, x);
        proof {
            let v_new = task_views(ts@);
            assert(ts@ == mid.insert(pos as int, x));
            assert(v_new =~= v_mid.insert(pos as int, x@));

            // the same tasks as before this iteration
            v_before.to_multiset_ensures();
            v_mid.to_multiset_ensures();
            v_new.to_multiset_ensures();
            lemma_insert_to_multiset(v_mid, pos as int, x@);
            assert(v_before.remove(i as int).to_multiset() =~= v_before.to_multiset().remove(
                v_before[i as int],
            ));
            assert(v_mid.to_multiset() == v_before.to_multiset().remove(x@));
            assert(v_before.contains(v_before[i as int]));
            assert(v_before.to_multiset().count(x@) > 0);
            assert(v_new.to_multiset() =~= v_before.to_multiset());

            // sortedness of the grown prefix
            v_mid.insert_ensures(pos as int, x@);
            let ghost p = v_before.take(i as int);
            assert(forall|k: int| 0 <= k < i ==> p[k] == v_before[k]);
            assert(forall|k: int| 0 <= k < i - 1 ==> v_mid[k] == (if k < i as int {
                v_before[k]
            } else {
                v_before[k + 1]
            }));
            assert forall|a: int, b: int| 0 <= a < b < i + 1 implies #[trigger] task_le(
                v_new[a],
                v_new[b],
            ) by {
                if b < pos {
                    assert(v_new[a] == v_mid[a] && v_new[b] == v_mid[b]);
                    assert(task_le(p[a], p[b]));
                } else if a < pos && b == pos {
                    assert(v_new[a] == v_mid[a]);
                    assert(task_le(v_mid[a], x@));
                } else if a < pos && b > pos {
                    assert(v_new[a] == v_mid[a] && v_new[b] == v_mid[b - 1]);
                    assert(task_le(p[a], p[b - 1]));
                } else if a == pos && b > pos {
                    assert(v_new[a] == x@ && v_new[b] == v_mid[b - 1]);
                    assert(task_le(x@, v_mid[pos as int]));
                    if pos < b - 1 {
                        assert(task_le(p[pos as int], p[b - 1]));
                        lemma_lex_le_trans(x@.name, v_mid[pos as int].name, v_mid[b - 1].name);
                    }
                } else {
                    assert(pos < a);
                    assert(v_new[a] == v_mid[a - 1] && v_new[b] == v_mid[b - 1]);
                    assert(task_le(p[a - 1], p[b - 1]));
                }
            }
            assert(sorted_by_name(v_new.take(i + 1))) by {
                assert(forall|k: int| 0 <= k < i + 1 ==> v_new.take(i + 1)[k] == v_new[k]);
            }
        }
        i = i + 1;
    }
    proof {
        assert(task_views(ts@).take(ts@.len() as int) =~= task_views(ts@));
    }
}

/// A reordering of a name-distinct task sequence is name-distinct.
pub proof fn lemma_perm_distinct_names(a: Seq<TaskV>, b: Seq<TaskV>)
    requires
        a.to_multiset() == b.to_multiset(),
        distinct_names(a),
    ensures
        distinct_names(b),
{
    broadcast use group_to_multiset_ensures;
    broadcast use group_multiset_axioms;

    a.to_multiset_ensures();
    b.to_multiset_ensures();
    assert forall|i: int, j: int| 0 <= i < j < b.len() implies b[i].name != b[j].name by {
        assert(b.contains(b[i]));
        assert(b.contains(b[j]));
        assert(b.to_multiset().contains(b[i]));
        assert(b.to_multiset().contains(b[j]));
        assert(a.to_multiset().contains(b[i]));
        assert(a.to_multiset().contains(b[j]));
        assert(a.contains(b[i]));
        assert(a.contains(b[j]));
        let k = choose|k: int| 0 <= k < a.len() && a[k] == b[i];
        let l = choose|l: int| 0 <= l < a.len() && a[l] == b[j];
        if k != l {
            assert(a[k].name != a[l].name);
        } else {
            // the same task appears twice in b, so its count is at least 2,
            // which contradicts name-distinctness of a
            let t = b[i];
            let s0 = b.subrange(0, j);
            let s1 = b.subrange(j, b.len() as int);
            assert(b =~= s0 + s1);
            lemma_multiset_commutative(s0, s1);
            s0.to_multiset_ensures();
            s1.to_multiset_ensures();
            assert(s0[i] == t);
            assert(s0.contains(t));
            assert(s0.to_multiset().contains(t));
            assert(s1[0] == b[j]);
            assert(s1.contains(b[j]));
            assert(s1.to_multiset().contains(b[j]));
            assert(b.to_multiset().count(t) >= 2);
            a.lemma_multiset_has_no_duplicates();
            assert(a.to_multiset().count(t) <= 1);
        }
    }
}

} // verus!

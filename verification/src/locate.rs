//! The file locator: the fixed, ordered list of supported root filenames,
//! and the choice of the first one that exists.

use vstd::prelude::*;
use crate::document::{Error, ErrorV};

verus! {

/// The number of supported root filenames.
pub open spec fn candidate_count() -> int {
    8
}

/// The supported root filenames, in priority order.
pub open spec fn candidate_name_v(i: int) -> Seq<char> {
    if i == 0 {
        "Taskfile.yml"@
    } else if i == 1 {
        "taskfile.yml"@
    } else if i == 2 {
        "Taskfile.yaml"@
    } else if i == 3 {
        "taskfile.yaml"@
    } else if i == 4 {
        "Taskfile.dist.yml"@
    } else if i == 5 {
        "taskfile.dist.yml"@
    } else if i == 6 {
        "Taskfile.dist.yaml"@
    } else if i == 7 {
        "taskfile.dist.yaml"@
    } else {
        Seq::empty()
    }
}

/// The supported root filenames, in priority order.
pub fn candidate_names() -> (r: Vec<String>)
    ensures
        r@.len() == candidate_count(),
        forall|i: int| 0 <= i < r@.len() ==> #[trigger] r@[i]@ == candidate_name_v(i),
{
    let mut r: Vec<String> = Vec::new();
    r.push(String::from_str("Taskfile.yml"));
    r.push(String::from_str("taskfile.yml"));
    r.push(String::from_str("Taskfile.yaml"));
    r.push(String::from_str("taskfile.yaml"));
    r.push(String::from_str("Taskfile.dist.yml"));
    r.push(String::from_str("taskfile.dist.yml"));
    r.push(String::from_str("Taskfile.dist.yaml"));
    r.push(String::from_str("taskfile.dist.yaml"));
    r
}

/// The first index whose flag is set, or `-1` when none is.
pub open spec fn first_present(present: Seq<bool>) -> int
    decreases present.len(),
{
    if present.len() == 0 {
        -1
    } else if present[0] {
        0
    } else {
        let rest = first_present(present.drop_first());
        if rest < 0 {
            -1
        } else {
            rest + 1
        }
    }
}

/// The first set flag, when the flags before `i` are clear, is at `i`.
proof fn lemma_first_present_at(s: Seq<bool>, i: int)
    requires
        0 <= i < s.len(),
        s[i],
        forall|k: int| 0 <= k < i ==> !s[k],
    ensures
        first_present(s) == i,
    decreases i,
{
    if i > 0 {
        assert(forall|k: int| 0 <= k < i - 1 ==> s.drop_first()[k] == s[k + 1]);
        lemma_first_present_at(s.drop_first(), i - 1);
    }
}

/// With every flag clear there is no first set flag.
proof fn lemma_first_present_none(s: Seq<bool>)
    requires
        forall|k: int| 0 <= k < s.len() ==> !s[k],
    ensures
        first_present(s) < 0,
    decreases s.len(),
{
    if s.len() > 0 {
        assert(forall|k: int| 0 <= k < s.len() - 1 ==> s.drop_first()[k] == s[k + 1]);
        lemma_first_present_none(s.drop_first());
    }
}

/// Picks the first supported root filename that exists, given one
/// existence flag per candidate, in the candidates' priority order; when
/// none exists, the whole resolution fails with `NotFound`.
pub fn find_supported_file(present: &Vec<bool>) -> (r: Result<String, Error>)
    requires
        present@.len() == candidate_count(),
    ensures
        match r {
            Ok(name) => first_present(present@) >= 0 && name@ == candidate_name_v(
                first_present(present@),
            ),
            Err(e) => first_present(present@) < 0 && e@ == ErrorV::NotFound,
        },
{
    let names = candidate_names();
    let mut i: usize = 0;
    while i < present.len()
        invariant
            i <= present@.len(),
            present@.len() == candidate_count(),
            names@.len() == candidate_count(),
            forall|k: int| 0 <= k < names@.len() ==> #[trigger] names@[k]@ == candidate_name_v(k),
            forall|k: int| 0 <= k < i ==> !present@[k],
        decreases present@.len() - i,
    {
        if present[i] {
            proof {
                lemma_first_present_at(present@, i as int);
            }
            return Ok(names[i].clone());
        }
        i = i + 1;
    }
    proof {
        lemma_first_present_none(present@);
    }
    Err(Error::NotFound)
}

} // verus!

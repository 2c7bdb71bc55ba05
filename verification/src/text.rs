//! Character-sequence utilities: lexicographic order, suffix and substring
//! tests, and path-string manipulation shared by the resolver.

use vstd::prelude::*;

verus! {

/// Lexicographic order on character sequences, comparing Unicode scalar
/// values position by position.
pub open spec fn lex_le(a: Seq<char>, b: Seq<char>) -> bool
    decreases a.len(),
{
    if a.len() == 0 {
        true
    } else if b.len() == 0 {
        false
    } else if a[0] == b[0] {
        lex_le(a.skip(1), b.skip(1))
    } else {
        a[0] < b[0]
    }
}

pub proof fn lemma_lex_le_total(a: Seq<char>, b: Seq<char>)
    ensures
        lex_le(a, b) || lex_le(b, a),
    decreases a.len(),
{
    if a.len() == 0 {
    } else if b.len() == 0 {
    } else if a[0] == b[0] {
        lemma_lex_le_total(a.skip(1), b.skip(1));
    }
}

pub proof fn lemma_lex_le_trans(a: Seq<char>, b: Seq<char>, c: Seq<char>)
    requires
        lex_le(a, b),
        lex_le(b, c),
    ensures
        lex_le(a, c),
    decreases a.len(),
{
    if a.len() == 0 {
    } else {
        if a[0] == b[0] && b[0] == c[0] {
            lemma_lex_le_trans(a.skip(1), b.skip(1), c.skip(1));
        }
    }
}

/// When the first `i` characters agree, the comparison is decided by the
/// remainders.
pub proof fn lemma_lex_le_common_prefix(a: Seq<char>, b: Seq<char>, i: int)
    requires
        0 <= i <= a.len(),
        i <= b.len(),
        forall|k: int| 0 <= k < i ==> a[k] == b[k],
    ensures
        lex_le(a, b) == lex_le(a.skip(i), b.skip(i)),
    decreases i,
{
    if i > 0 {
        assert(a.skip(1).skip(i - 1) =~= a.skip(i));
        assert(b.skip(1).skip(i - 1) =~= b.skip(i));
        assert(forall|k: int| 0 <= k < i - 1 ==> a.skip(1)[k] == b.skip(1)[k]);
        lemma_lex_le_common_prefix(a.skip(1), b.skip(1), i - 1);
    } else {
        assert(a.skip(0) =~= a);
        assert(b.skip(0) =~= b);
    }
}

/// Executable lexicographic comparison of two strings.
pub fn str_le(a: &str, b: &str) -> (r: bool)
    ensures
        r == lex_le(a@, b@),
{
    let a_len: usize = a.unicode_len();
    let b_len: usize = b.unicode_len();
    let mut i: usize = 0;
    while i < a_len && i < b_len
        invariant
            i <= a_len,
            i <= b_len,
            a_len == a@.len(),
            b_len == b@.len(),
            forall|k: int| 0 <= k < i ==> a@[k] == b@[k],
        decreases a_len - i,
    {
        let ca = a.get_char(i);
        let cb = b.get_char(i);
        if ca != cb {
            proof {
                lemma_lex_le_common_prefix(a@, b@, i as int);
            }
            return ca < cb;
        }
        i = i + 1;
    }
    proof {
        lemma_lex_le_common_prefix(a@, b@, i as int);
    }
    a_len <= b_len
}

/// Executable string equality, in terms of the character views.
pub fn str_eq(a: &str, b: &str) -> (r: bool)
    ensures
        r == (a@ == b@),
{
    let a_len: usize = a.unicode_len();
    let b_len: usize = b.unicode_len();
    if a_len != b_len {
        return false;
    }
    let mut i: usize = 0;
    while i < a_len
        invariant
            i <= a_len,
            a_len == a@.len(),
            a_len == b@.len(),
            forall|k: int| 0 <= k < i ==> a@[k] == b@[k],
        decreases a_len - i,
    {
        if a.get_char(i) != b.get_char(i) {
            return false;
        }
        i = i + 1;
    }
    proof {
        assert(a@ =~= b@);
    }
    true
}

/// Whether `s` ends with `suffix`.
pub open spec fn ends_with_v(s: Seq<char>, suffix: Seq<char>) -> bool {
    s.len() >= suffix.len() && s.subrange(s.len() - suffix.len(), s.len() as int) == suffix
}

pub fn str_ends_with(s: &str, suffix: &str) -> (r: bool)
    ensures
        r == ends_with_v(s@, suffix@),
{
    let s_len: usize = s.unicode_len();
    let suf_len: usize = suffix.unicode_len();
    if suf_len > s_len {
        return false;
    }
    let base: usize = s_len - suf_len;
    let ghost tail = s@.subrange(s@.len() - suffix@.len(), s@.len() as int);
    let mut k: usize = 0;
    while k < suf_len
        invariant
            k <= suf_len,
            suf_len <= s_len,
            s_len == s@.len(),
            suf_len == suffix@.len(),
            base == s_len - suf_len,
            tail == s@.subrange(s@.len() - suffix@.len(), s@.len() as int),
            forall|j: int| 0 <= j < k ==> tail[j] == suffix@[j],
        decreases suf_len - k,
    {
        let cs = s.get_char(base + k);
        let cx = suffix.get_char(k);
        proof {
            assert(tail[k as int] == s@[base + k]);
        }
        if cs != cx {
            return false;
        }
        k = k + 1;
    }
    proof {
        assert(tail =~= suffix@);
    }
    true
}

/// Whether `s` starts with `prefix`.
pub open spec fn starts_with_v(s: Seq<char>, prefix: Seq<char>) -> bool {
    s.len() >= prefix.len() && s.subrange(0, prefix.len() as int) == prefix
}

pub fn str_starts_with(s: &str, prefix: &str) -> (r: bool)
    ensures
        r == starts_with_v(s@, prefix@),
{
    let s_len: usize = s.unicode_len();
    let pre_len: usize = prefix.unicode_len();
    if pre_len > s_len {
        return false;
    }
    let ghost head = s@.subrange(0, prefix@.len() as int);
    let mut k: usize = 0;
    while k < pre_len
        invariant
            k <= pre_len,
            pre_len <= s_len,
            s_len == s@.len(),
            pre_len == prefix@.len(),
            head == s@.subrange(0, prefix@.len() as int),
            forall|j: int| 0 <= j < k ==> head[j] == prefix@[j],
        decreases pre_len - k,
    {
        let cs = s.get_char(k);
        let cx = prefix.get_char(k);
        proof {
            assert(head[k as int] == s@[k as int]);
        }
        if cs != cx {
            return false;
        }
        k = k + 1;
    }
    proof {
        assert(head =~= prefix@);
    }
    true
}

/// Whether `sub` occurs contiguously anywhere inside `s`.
pub open spec fn has_substring(s: Seq<char>, sub: Seq<char>) -> bool {
    exists|k: int| 0 <= k <= s.len() - sub.len() && #[trigger] s.subrange(k, k + sub.len()) == sub
}

fn matches_at(s: &str, k: usize, sub: &str) -> (r: bool)
    requires
        k + sub@.len() <= s@.len(),
    ensures
        r == (s@.subrange(k as int, k + sub@.len()) == sub@),
{
    let s_len: usize = s.unicode_len();
    let sub_len: usize = sub.unicode_len();
    let ghost window = s@.subrange(k as int, k + sub@.len());
    let mut j: usize = 0;
    while j < sub_len
        invariant
            j <= sub_len,
            s_len == s@.len(),
            sub_len == sub@.len(),
            k + sub@.len() <= s@.len(),
            window == s@.subrange(k as int, k + sub@.len()),
            forall|t: int| 0 <= t < j ==> window[t] == sub@[t],
        decreases sub_len - j,
    {
        let cs = s.get_char(k + j);
        let cx = sub.get_char(j);
        proof {
            assert(window[j as int] == s@[k + j]);
        }
        if cs != cx {
            return false;
        }
        j = j + 1;
    }
    proof {
        assert(window =~= sub@);
    }
    true
}

/// Executable substring search.
pub fn str_has_substring(s: &str, sub: &str) -> (r: bool)
    ensures
        r == has_substring(s@, sub@),
{
    let s_len: usize = s.unicode_len();
    let sub_len: usize = sub.unicode_len();
    if sub_len > s_len {
        return false;
    }
    if sub_len == 0 {
        proof {
            assert(s@.subrange(0, 0 + sub@.len() as int) =~= sub@);
        }
        return true;
    }
    let mut k: usize = 0;
    while k <= s_len - sub_len
        invariant
            1 <= sub_len <= s_len,
            s_len == s@.len(),
            sub_len == sub@.len(),
            k <= s_len - sub_len + 1,
            forall|t: int| 0 <= t < k ==> #[trigger] s@.subrange(t, t + sub@.len()) != sub@,
        decreases s_len + 1 - k,
    {
        if matches_at(s, k, sub) {
            return true;
        }
        k = k + 1;
    }
    false
}

/// Index of the last `/` in `s`, or `-1` when there is none.
pub open spec fn last_slash(s: Seq<char>) -> int
    decreases s.len(),
{
    if s.len() == 0 {
        -1
    } else if s[s.len() - 1] == '/' {
        s.len() - 1
    } else {
        last_slash(s.take(s.len() - 1))
    }
}

/// The directory part of a path: everything before the last `/`, or the
/// empty string when the path holds no `/`.
pub open spec fn parent_dir_v(s: Seq<char>) -> Seq<char> {
    if last_slash(s) < 0 {
        Seq::empty()
    } else {
        s.take(last_slash(s))
    }
}

pub fn parent_dir(p: &str) -> (r: String)
    ensures
        r@ == parent_dir_v(p@),
{
    let p_len: usize = p.unicode_len();
    proof {
        assert(p@.take(p_len as int) =~= p@);
    }
    let mut j: usize = p_len;
    while j > 0
        invariant
            j <= p_len,
            p_len == p@.len(),
            last_slash(p@) == last_slash(p@.take(j as int)),
        decreases j,
    {
        proof {
            assert(p@.take(j as int)[j - 1] == p@[j - 1]);
        }
        if p.get_char(j - 1) == '/' {
            let r = p.substring_char(0, j - 1);
            proof {
                assert(last_slash(p@.take(j as int)) == j - 1);
                assert(r@ =~= p@.take(j - 1));
            }
            return String::from_str(r);
        }
        proof {
            assert(p@.take(j as int).take(j - 1) =~= p@.take(j - 1));
        }
        j = j - 1;
    }
    proof {
        assert(p@.take(0) =~= Seq::<char>::empty());
    }
    String::new()
}

/// Joining a directory with a relative path; an absolute path replaces the
/// directory outright.
pub open spec fn join_path_v(dir: Seq<char>, rel: Seq<char>) -> Seq<char> {
    if rel.len() > 0 && rel[0] == '/' {
        rel
    } else {
        dir + "/"@ + rel
    }
}

pub fn join_path(dir: &str, rel: &str) -> (r: String)
    ensures
        r@ == join_path_v(dir@, rel@),
{
    if rel.unicode_len() > 0 && rel.get_char(0) == '/' {
        String::from_str(rel)
    } else {
        String::from_str(dir).concat("/").concat(rel)
    }
}

/// Concatenation of two strings.
pub fn str_concat(a: &str, b: &str) -> (r: String)
    ensures
        r@ == a@ + b@,
{
    String::from_str(a).concat(b)
}

/// Relies on std's String::push: appends the given character to the end
/// of the string.
pub assume_specification[ String::push ](s: &mut String, ch: char)
    ensures
        final(s)@ == old(s)@.push(ch),
;

/// Relies on std's String::pop: removes the last character from the
/// string and returns it, or returns `None` when the string is empty.
pub assume_specification[ String::pop ](s: &mut String) -> (r: Option<char>)
    ensures
        old(s)@.len() == 0 ==> r is None && final(s)@ == old(s)@,
        old(s)@.len() > 0 ==> r == Some(old(s)@.last()) && final(s)@ == old(s)@.drop_last(),
;

} // verus!

//! Name tables: association lists keyed by a name, and name sets.
//!
//! A table keyed by name answers with its FIRST entry of that name
//! (`assoc_first`); a scope stack answers with its LAST entry, innermost wins
//! (`assoc_last`).

use vstd::prelude::*;

verus! {

/// The value of the first entry named `k`, if any.
pub open spec fn assoc_first<V>(s: Seq<(String, V)>, k: Seq<char>) -> Option<V>
    decreases s.len(),
{
    if s.len() == 0 {
        None
    } else if s[0].0@ == k {
        Some(s[0].1)
    } else {
        assoc_first(s.drop_first(), k)
    }
}

/// The value of the last entry named `k`, if any.
pub open spec fn assoc_last<V>(s: Seq<(String, V)>, k: Seq<char>) -> Option<V>
    decreases s.len(),
{
    if s.len() == 0 {
        None
    } else if s.last().0@ == k {
        Some(s.last().1)
    } else {
        assoc_last(s.drop_last(), k)
    }
}

/// Does some name of `s` equal `k`?
pub open spec fn has_name(s: Seq<String>, k: Seq<char>) -> bool {
    exists|i: int| 0 <= i < s.len() && #[trigger] s[i]@ == k
}

/// Does some entry of `s` have the name `k`?
pub open spec fn has_key<V>(s: Seq<(String, V)>, k: Seq<char>) -> bool {
    exists|i: int| 0 <= i < s.len() && #[trigger] s[i].0@ == k
}

/// Pushing a name adds exactly that name.
pub proof fn lemma_has_name_push(s: Seq<String>, x: String, k: Seq<char>)
    ensures
        has_name(s.push(x), k) <==> (has_name(s, k) || x@ == k),
{
    if has_name(s, k) {
        let i = choose|i: int| 0 <= i < s.len() && #[trigger] s[i]@ == k;
        assert(s.push(x)[i]@ == k);
    }
    if x@ == k {
        assert(s.push(x)[s.len() as int]@ == k);
    }
    if has_name(s.push(x), k) {
        let i = choose|i: int| 0 <= i < s.push(x).len() && #[trigger] s.push(x)[i]@ == k;
        if i < s.len() {
            assert(s[i]@ == k);
        }
    }
}

/// `assoc_first` is `Some` exactly when the key is present.
pub proof fn lemma_assoc_first_some<V>(s: Seq<(String, V)>, k: Seq<char>)
    ensures
        assoc_first(s, k) is Some <==> has_key(s, k),
    decreases s.len(),
{
    if s.len() > 0 {
        lemma_assoc_first_some(s.drop_first(), k);
        if has_key(s, k) && s[0].0@ != k {
            let i = choose|i: int| 0 <= i < s.len() && #[trigger] s[i].0@ == k;
            assert(s.drop_first()[i - 1].0@ == k);
        }
        if has_key(s.drop_first(), k) {
            let i = choose|i: int| 0 <= i < s.drop_first().len() && #[trigger] s.drop_first()[i].0@ == k;
            assert(s[i + 1].0@ == k);
        }
    }
}

/// The first entry named `k`, looked up in `t`.
pub fn lookup_first<V: Copy>(t: &Vec<(String, V)>, k: &String) -> (r: Option<V>)
    ensures
        r == assoc_first(t@, k@),
{
    let mut i: usize = 0;
    assert(t@.skip(0) =~= t@);
    while i < t.len()
        invariant
            i <= t.len(),
            assoc_first(t@, k@) == assoc_first(t@.skip(i as int), k@),
        decreases t.len() - i,
    {
        assert(t@.skip(i as int).drop_first() =~= t@.skip(i as int + 1));
        if t[i].0 == *k {
            return Some(t[i].1);
        }
        i += 1;
    }
    None
}

/// The last entry named `k`, looked up in `t` (innermost wins).
pub fn lookup_last<V: Copy>(t: &Vec<(String, V)>, k: &String) -> (r: Option<V>)
    ensures
        r == assoc_last(t@, k@),
{
    let mut i: usize = t.len();
    assert(t@.take(i as int) =~= t@);
    while i > 0
        invariant
            i <= t.len(),
            assoc_last(t@, k@) == assoc_last(t@.take(i as int), k@),
        decreases i,
    {
        assert(t@.take(i as int).drop_last() =~= t@.take(i as int - 1));
        if t[i - 1].0 == *k {
            return Some(t[i - 1].1);
        }
        i -= 1;
    }
    None
}

/// Is `k` one of the names in `s`?
pub fn contains_name(s: &Vec<String>, k: &String) -> (r: bool)
    ensures
        r == has_name(s@, k@),
{
    let mut i: usize = 0;
    while i < s.len()
        invariant
            i <= s.len(),
            forall|j: int| 0 <= j < i ==> s@[j]@ != k@,
        decreases s.len() - i,
    {
        if s[i] == *k {
            return true;
        }
        i += 1;
    }
    false
}

/// Is `k` the name of one of the entries of `t`?
pub fn contains_key<V>(t: &Vec<(String, V)>, k: &String) -> (r: bool)
    ensures
        r == has_key(t@, k@),
{
    let mut i: usize = 0;
    while i < t.len()
        invariant
            i <= t.len(),
            forall|j: int| 0 <= j < i ==> t@[j].0@ != k@,
        decreases t.len() - i,
    {
        if t[i].0 == *k {
            return true;
        }
        i += 1;
    }
    false
}

/// Is the number `n` in `s`?
pub fn contains_u32(s: &Vec<u32>, n: u32) -> (r: bool)
    ensures
        r == s@.contains(n),
{
    let mut i: usize = 0;
    while i < s.len()
        invariant
            i <= s.len(),
            forall|j: int| 0 <= j < i ==> s@[j] != n,
        decreases s.len() - i,
    {
        if s[i] == n {
            assert(s@[i as int] == n);
            return true;
        }
        i += 1;
    }
    false
}

/// The index of the first entry named `k`, if any.
pub fn lookup_first_index<V>(t: &Vec<(String, V)>, k: &String) -> (r: Option<usize>)
    ensures
        r is None ==> assoc_first(t@, k@) is None,
        r matches Some(i) ==> i < t@.len() && assoc_first(t@, k@) == Some(t@[i as int].1),
{
    let mut i: usize = 0;
    assert(t@.skip(0) =~= t@);
    while i < t.len()
        invariant
            i <= t.len(),
            assoc_first(t@, k@) == assoc_first(t@.skip(i as int), k@),
        decreases t.len() - i,
    {
        assert(t@.skip(i as int).drop_first() =~= t@.skip(i as int + 1));
        if t[i].0 == *k {
            assert(t@.skip(i as int)[0] == t@[i as int]);
            return Some(i);
        }
        i += 1;
    }
    None
}

} // verus!

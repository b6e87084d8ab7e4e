//! Finding the first occurrence of a value in a sequence.

use vstd::prelude::*;

verus! {

/// The least position at or after `from` at which `s` holds `x`, or the
/// length of `s` if there is none.
pub open spec fn first_index_from<T>(s: Seq<T>, x: T, from: int) -> int
    decreases s.len() - from,
{
    if from < 0 || from >= s.len() {
        s.len() as int
    } else if s[from] == x {
        from
    } else {
        first_index_from(s, x, from + 1)
    }
}

/// The least position at which `s` holds `x`, or the length of `s` if `x`
/// does not occur.
pub open spec fn first_index<T>(s: Seq<T>, x: T) -> int {
    first_index_from(s, x, 0)
}

/// Whether `x` occurs in `s`.
pub open spec fn occurs<T>(s: Seq<T>, x: T) -> bool {
    first_index(s, x) < s.len()
}

/// What `first_index_from` finds: a position in range that holds `x` with no
/// earlier one at or after `from`; or the length, when `x` does not occur at
/// or after `from`.
pub proof fn lemma_first_index_from<T>(s: Seq<T>, x: T, from: int)
    requires
        0 <= from <= s.len(),
    ensures
        from <= first_index_from(s, x, from) <= s.len(),
        first_index_from(s, x, from) < s.len() ==> s[first_index_from(s, x, from)] == x,
        forall|j: int| from <= j < first_index_from(s, x, from) ==> s[j] != x,
    decreases s.len() - from,
{
    if from < s.len() && s[from] != x {
        lemma_first_index_from(s, x, from + 1);
    }
}

/// What `first_index` finds, and that it agrees with `contains`.
pub proof fn lemma_first_index<T>(s: Seq<T>, x: T)
    ensures
        0 <= first_index(s, x) <= s.len(),
        occurs(s, x) ==> s[first_index(s, x)] == x,
        forall|j: int| 0 <= j < first_index(s, x) ==> s[j] != x,
        occurs(s, x) <==> s.contains(x),
{
    lemma_first_index_from(s, x, 0);
    if s.contains(x) {
        let i = choose|i: int| 0 <= i < s.len() && s[i] == x;
        assert(first_index(s, x) <= i);
    }
}

/// A position that holds `x` and has no earlier one that does is the first.
pub proof fn lemma_first_index_is<T>(s: Seq<T>, x: T, i: int)
    requires
        0 <= i < s.len(),
        s[i] == x,
        forall|j: int| 0 <= j < i ==> s[j] != x,
    ensures
        first_index(s, x) == i,
{
    lemma_first_index(s, x);
}

/// In a sequence without duplicates, any position that holds `x` is the first.
pub proof fn lemma_first_index_unique<T>(s: Seq<T>, x: T, i: int)
    requires
        s.no_duplicates(),
        0 <= i < s.len(),
        s[i] == x,
    ensures
        first_index(s, x) == i,
{
    lemma_first_index(s, x);
}

/// The first position of `x` in `v`, if it occurs.
pub fn position(v: &Vec<usize>, x: usize) -> (found: Option<usize>)
    ensures
        found == if occurs(v@, x) {
            Some(first_index(v@, x) as usize)
        } else {
            None
        },
        found is Some ==> found->0 == first_index(v@, x) && found->0 < v.len() && v@[found->0 as int]
            == x,
{
    let mut i: usize = 0;
    while i < v.len()
        invariant
            i <= v.len(),
            first_index(v@, x) == first_index_from(v@, x, i as int),
        decreases v.len() - i,
    {
        if v[i] == x {
            return Some(i);
        }
        i += 1;
    }
    None
}

} // verus!

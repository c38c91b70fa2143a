//! Shared facts about sequences of session ids.
use vstd::prelude::*;

verus! {

/// `i` is the position of the first occurrence of `x` in `s`.
pub open spec fn is_first_index(s: Seq<u32>, x: u32, i: int) -> bool {
    &&& 0 <= i < s.len()
    &&& s[i] == x
    &&& forall|j: int| 0 <= j < i ==> s[j] != x
}

/// Position of the first occurrence of `x` in `s`, or -1 when `x` does not occur.
pub open spec fn first_index(s: Seq<u32>, x: u32) -> int {
    match s.index_of_first(x) {
        Some(i) => i,
        None => -1,
    }
}

/// What `first_index` is, in terms of `is_first_index`.
pub proof fn lemma_first_index(s: Seq<u32>, x: u32)
    ensures
        s.contains(x) ==> is_first_index(s, x, first_index(s, x)),
        !s.contains(x) ==> first_index(s, x) == -1,
        forall|i: int| is_first_index(s, x, i) ==> first_index(s, x) == i,
{
    s.index_of_first_ensures(x);
    assert forall|i: int| is_first_index(s, x, i) implies first_index(s, x) == i by {
        let k = first_index(s, x);
        assert(s.contains(x)) by {
            assert(s[i] == x);
        }
        if k < i {
            assert(s[k] != x);
        } else if i < k {
            assert(s[i] != x);
        }
    }
}

/// In a sequence without repeats, the element at `i` first occurs at `i`.
pub proof fn lemma_first_index_no_dup(s: Seq<u32>, i: int)
    requires
        s.no_duplicates(),
        0 <= i < s.len(),
    ensures
        first_index(s, s[i]) == i,
{
    lemma_first_index(s, s[i]);
    assert(is_first_index(s, s[i], i));
}

/// Finds the first position of `x` in `v`.
pub fn position(v: &Vec<u32>, x: u32) -> (r: Option<usize>)
    ensures
        match r {
            Some(i) => is_first_index(v@, x, i as int) && first_index(v@, x) == i as int,
            None => !v@.contains(x) && first_index(v@, x) == -1,
        },
{
    let mut i: usize = 0;
    while i < v.len()
        invariant
            i <= v.len(),
            forall|j: int| 0 <= j < i ==> v@[j] != x,
        decreases v.len() - i,
    {
        if v[i] == x {
            proof {
                lemma_first_index(v@, x);
            }
            return Some(i);
        }
        i = i + 1;
    }
    proof {
        lemma_first_index(v@, x);
    }
    None
}

/// Whether `x` occurs in `v`.
pub fn contains_id(v: &Vec<u32>, x: u32) -> (r: bool)
    ensures
        r == v@.contains(x),
{
    match position(v, x) {
        Some(_) => true,
        None => false,
    }
}

/// `s` with the elements at positions `i` and `j` exchanged.
pub open spec fn swap_at(s: Seq<u32>, i: int, j: int) -> Seq<u32> {
    s.update(i, s[j]).update(j, s[i])
}

/// Exchanges the elements at positions `i` and `j` of `v`.
pub fn swap_positions(v: &mut Vec<u32>, i: usize, j: usize)
    requires
        i < old(v).len(),
        j < old(v).len(),
    ensures
        final(v)@ == swap_at(old(v)@, i as int, j as int),
{
    let a = v[i];
    let b = v[j];
    v.set(i, b);
    v.set(j, a);
}

/// Copies the ids of `v`.
pub fn copy_ids(v: &Vec<u32>) -> (r: Vec<u32>)
    ensures
        r@ == v@,
{
    let mut r: Vec<u32> = Vec::new();
    let mut i: usize = 0;
    while i < v.len()
        invariant
            i <= v.len(),
            r@ == v@.take(i as int),
        decreases v.len() - i,
    {
        r.push(v[i]);
        i = i + 1;
        proof {
            assert(r@ == v@.take(i as int));
        }
    }
    proof {
        assert(v@.take(v.len() as int) == v@);
    }
    r
}

/// `s` without the first occurrence of `x`.
pub open spec fn remove_id(s: Seq<u32>, x: u32) -> Seq<u32> {
    if s.contains(x) {
        s.remove(first_index(s, x))
    } else {
        s
    }
}

/// `s` with the first occurrences of `a` and `b` exchanged, when both occur.
pub open spec fn swap_ids(s: Seq<u32>, a: u32, b: u32) -> Seq<u32> {
    if s.contains(a) && s.contains(b) {
        swap_at(s, first_index(s, a), first_index(s, b))
    } else {
        s
    }
}

/// Membership after appending.
pub proof fn lemma_push_contains(s: Seq<u32>, y: u32)
    ensures
        forall|x: u32| #[trigger] s.push(y).contains(x) <==> (s.contains(x) || x == y),
{
    assert forall|x: u32| #[trigger] s.push(y).contains(x) <==> (s.contains(x) || x == y) by {
        if s.contains(x) {
            let i = choose|i: int| 0 <= i < s.len() && s[i] == x;
            assert(s.push(y)[i] == x);
        }
        if x == y {
            assert(s.push(y)[s.len() as int] == y);
        }
        if s.push(y).contains(x) {
            let i = choose|i: int| 0 <= i < s.push(y).len() && s.push(y)[i] == x;
            if i < s.len() {
                assert(s[i] == x);
            }
        }
    }
}

/// Appending an id that is absent keeps the ids distinct.
pub proof fn lemma_push_no_dup(s: Seq<u32>, y: u32)
    requires
        s.no_duplicates(),
        !s.contains(y),
    ensures
        s.push(y).no_duplicates(),
{
    let t = s.push(y);
    assert forall|i: int, j: int| 0 <= i < t.len() && 0 <= j < t.len() && i != j implies t[i] != t[j] by {
        if i < s.len() && j < s.len() {
            assert(t[i] == s[i] && t[j] == s[j]);
        } else if i < s.len() {
            assert(t[i] == s[i]);
        } else if j < s.len() {
            assert(t[j] == s[j]);
        }
    }
}

/// Membership and distinctness after removing the first occurrence of an id from
/// distinct ids.
pub proof fn lemma_remove_id(s: Seq<u32>, y: u32)
    requires
        s.no_duplicates(),
    ensures
        remove_id(s, y).no_duplicates(),
        forall|x: u32| #[trigger] remove_id(s, y).contains(x) <==> (s.contains(x) && x != y),
        remove_id(s, y).len() == if s.contains(y) { s.len() - 1 } else { s.len() as int },
{
    if s.contains(y) {
        lemma_first_index(s, y);
        let k = first_index(s, y);
        let t = s.remove(k);
        assert forall|x: u32| #[trigger] t.contains(x) <==> (s.contains(x) && x != y) by {
            if t.contains(x) {
                let i = choose|i: int| 0 <= i < t.len() && t[i] == x;
                if i < k {
                    assert(s[i] == x);
                } else {
                    assert(s[i + 1] == x);
                }
            }
            if s.contains(x) && x != y {
                let i = choose|i: int| 0 <= i < s.len() && s[i] == x;
                if i < k {
                    assert(t[i] == x);
                } else {
                    assert(i != k);
                    assert(t[i - 1] == x);
                }
            }
        }
    }
}

/// Membership and distinctness after putting `y`, absent from distinct ids, in place of
/// the element at `i`.
pub proof fn lemma_update_fresh(s: Seq<u32>, i: int, y: u32)
    requires
        s.no_duplicates(),
        0 <= i < s.len(),
        !s.contains(y),
    ensures
        s.update(i, y).no_duplicates(),
        forall|x: u32| #[trigger] s.update(i, y).contains(x) <==> ((s.contains(x) && x != s[i]) || x == y),
{
    let t = s.update(i, y);
    assert forall|x: u32| #[trigger] t.contains(x) <==> ((s.contains(x) && x != s[i]) || x == y) by {
        if t.contains(x) {
            let j = choose|j: int| 0 <= j < t.len() && t[j] == x;
            if j != i {
                assert(s[j] == x);
            }
        }
        if s.contains(x) && x != s[i] {
            let j = choose|j: int| 0 <= j < s.len() && s[j] == x;
            assert(t[j] == x);
        }
        if x == y {
            assert(t[i] == y);
        }
    }
}

/// Membership and distinctness after inserting `y`, absent from distinct ids.
pub proof fn lemma_insert_fresh(s: Seq<u32>, i: int, y: u32)
    requires
        s.no_duplicates(),
        0 <= i <= s.len(),
        !s.contains(y),
    ensures
        s.insert(i, y).no_duplicates(),
        forall|x: u32| #[trigger] s.insert(i, y).contains(x) <==> (s.contains(x) || x == y),
        s.insert(i, y).len() == s.len() + 1,
{
    let t = s.insert(i, y);
    assert forall|x: u32| #[trigger] t.contains(x) <==> (s.contains(x) || x == y) by {
        if t.contains(x) {
            let j = choose|j: int| 0 <= j < t.len() && t[j] == x;
            if j < i {
                assert(s[j] == x);
            } else if j > i {
                assert(s[j - 1] == x);
            }
        }
        if s.contains(x) {
            let j = choose|j: int| 0 <= j < s.len() && s[j] == x;
            if j < i {
                assert(t[j] == x);
            } else {
                assert(t[j + 1] == x);
            }
        }
        if x == y {
            assert(t[i] == y);
        }
    }
    assert forall|a: int, b: int| 0 <= a < t.len() && 0 <= b < t.len() && a != b implies t[a] != t[b] by {
        let sa = if a < i { a } else { a - 1 };
        let sb = if b < i { b } else { b - 1 };
        if a == i {
            assert(t[b] == s[sb]);
        } else if b == i {
            assert(t[a] == s[sa]);
        } else {
            assert(t[a] == s[sa] && t[b] == s[sb]);
        }
    }
}

/// Exchanging two elements of distinct ids keeps them distinct and keeps the same ids.
pub proof fn lemma_swap_ids(s: Seq<u32>, a: u32, b: u32)
    requires
        s.no_duplicates(),
    ensures
        swap_ids(s, a, b).no_duplicates(),
        swap_ids(s, a, b).len() == s.len(),
        forall|x: u32| #[trigger] swap_ids(s, a, b).contains(x) <==> s.contains(x),
{
    if s.contains(a) && s.contains(b) {
        lemma_first_index(s, a);
        lemma_first_index(s, b);
        let pa = first_index(s, a);
        let pb = first_index(s, b);
        let t = swap_at(s, pa, pb);
        let m = |i: int| if i == pa { pb } else if i == pb { pa } else { i };
        assert forall|i: int| 0 <= i < t.len() implies t[i] == s[m(i)] by {}
        assert forall|i: int, j: int| 0 <= i < t.len() && 0 <= j < t.len() && i != j implies t[i] != t[j] by {
            assert(t[i] == s[m(i)]);
            assert(t[j] == s[m(j)]);
        }
        assert forall|x: u32| #[trigger] t.contains(x) <==> s.contains(x) by {
            if t.contains(x) {
                let i = choose|i: int| 0 <= i < t.len() && t[i] == x;
                assert(s[m(i)] == x);
            }
            if s.contains(x) {
                let i = choose|i: int| 0 <= i < s.len() && s[i] == x;
                assert(t[m(i)] == x);
            }
        }
    }
}

} // verus!

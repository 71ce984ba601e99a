//! Facts about sequences that hold no item twice.

use vstd::prelude::*;

verus! {

/// `s` without the item at `i`, whose place the last item takes.
pub open spec fn swap_removed<T>(s: Seq<T>, i: int) -> Seq<T> {
    s.update(i, s.last()).drop_last()
}

/// What a sequence without repetition holds after an item that it did not
/// hold was appended.
pub proof fn lemma_pushed<T>(s: Seq<T>, v: T)
    requires
        s.no_duplicates(),
        !s.contains(v),
    ensures
        s.push(v).no_duplicates(),
        forall|p: T| #[trigger] s.push(v).contains(p) <==> s.contains(p) || p == v,
{
    let t = s.push(v);
    lemma_push_contains(s, v);
    assert forall|i: int, j: int| 0 <= i < t.len() && 0 <= j < t.len() && i != j implies t[i]
        != t[j] by {
        if i < s.len() && j < s.len() {
        } else if i < s.len() {
            assert(s[i] == t[i]);
        } else {
            assert(s[j] == t[j]);
        }
    }
}

/// What a sequence holds after an item was appended.
pub proof fn lemma_push_contains<T>(s: Seq<T>, v: T)
    ensures
        forall|p: T| #[trigger] s.push(v).contains(p) <==> s.contains(p) || p == v,
{
    let t = s.push(v);
    assert forall|p: T| #[trigger] t.contains(p) <==> s.contains(p) || p == v by {
        if s.contains(p) {
            let i = s.index_of(p);
            assert(t[i] == p);
        }
        if p == v {
            assert(t[s.len() as int] == p);
        }
        if t.contains(p) {
            let i = t.index_of(p);
            if i < s.len() {
                assert(s[i] == p);
            }
        }
    }
}

/// What a sequence without repetition holds after one of its items was
/// taken out by [`swap_removed`].
pub proof fn lemma_swap_removed<T>(s: Seq<T>, v: T)
    requires
        s.no_duplicates(),
        s.contains(v),
    ensures
        swap_removed(s, s.index_of(v)).no_duplicates(),
        forall|p: T| #[trigger]
            swap_removed(s, s.index_of(v)).contains(p) <==> s.contains(p) && p != v,
{
    let i = s.index_of(v);
    let last = s.len() - 1;
    let t = swap_removed(s, i);
    assert(t.len() == last);
    assert forall|k: int| 0 <= k < t.len() implies t[k] == (if k == i {
        s[last]
    } else {
        s[k]
    }) by {}
    assert forall|p: T| #[trigger] t.contains(p) <==> s.contains(p) && p != v by {
        if t.contains(p) {
            let k = t.index_of(p);
            if k == i {
                assert(s[last] == p);
            } else {
                assert(s[k] == p);
            }
        }
        if s.contains(p) && p != v {
            let k = s.index_of(p);
            if k == last {
                assert(t[i] == p);
            } else {
                assert(t[k] == p);
            }
        }
    }
    assert forall|a: int, b: int| 0 <= a < t.len() && 0 <= b < t.len() && a != b implies t[a]
        != t[b] by {}
}

/// The first `i + 1` items of a sequence are its first `i` items and the
/// item at `i`.
pub proof fn lemma_prefix_step<T>(s: Seq<T>, i: int)
    requires
        0 <= i < s.len(),
    ensures
        forall|p: T| #[trigger]
            s.subrange(0, i + 1).contains(p) <==> s.subrange(0, i).contains(p) || p == s[i],
        s.no_duplicates() ==> !s.subrange(0, i).contains(s[i]),
{
    let a = s.subrange(0, i);
    let b = s.subrange(0, i + 1);
    assert(b =~= a.push(s[i]));
    lemma_push_contains(a, s[i]);
    if s.no_duplicates() && a.contains(s[i]) {
        let j = a.index_of(s[i]);
        assert(s[j] == s[i]);
    }
}

/// A sequence holds exactly the items of its whole prefix.
pub proof fn lemma_prefix_whole<T>(s: Seq<T>)
    ensures
        s.subrange(0, s.len() as int) == s,
        forall|p: T| !(#[trigger] s.subrange(0, 0).contains(p)),
{
    assert(s.subrange(0, s.len() as int) =~= s);
}

} // verus!
